# laughter

A small statically typed teaching language: source text is lexed, parsed,
type-checked, compiled to a stack bytecode and run on a virtual machine.
Compiled modules can be stored as `.lgb` files, and packed with a manifest
into `.lgpack` ZIP packages.

The library in `src/` is verified with Verus:

| Module | What it holds |
|--------|---------------|
| `token`, `lexer`, `grammar`, `ast`, `parser` | tokens with exact line and column, the lexer, the grammar as relations between token runs and trees, the recursive-descent parser |
| `types`, `typing`, `check` | semantic types, the typing rules as spec functions, the checker (it accepts only what those rules allow, and all of it where constant initialisers fold) and constant folding |
| `op`, `chunk`, `compile`, `disasm` | opcodes, code chunks, the compiler and listings |
| `value`, `semantics`, `vm`, `display`, `float` | runtime values, the step semantics, the virtual machine, value printing, the host interface for floating point |
| `lgb_format`, `lgb`, `lgb_laws` | the `.lgb` byte format, encoder and decoder, and the round-trip law |
| `manifest`, `manifest_laws`, `lgpack` | the package manifest, ZIP packages built and read through the `zip` crate, and their laws |
| `source`, `loader`, `paths` | whole-source compilation, multi-file import resolution, path rules |

`app/` holds the command-line program: file access, argument handling and
floating-point arithmetic, which the library reaches through its `Host` trait.
