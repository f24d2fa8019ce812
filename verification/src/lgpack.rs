//! `.lgpack` packages: a ZIP archive with a manifest
//! (`META-INF/MANIFEST.MF`), the entry bytecode it names, and resources
//! under `resources/`. Archives are built and read in memory.

use vstd::prelude::*;
use std::io::Cursor;
use zip::{ZipArchive, ZipWriter};
use crate::chunk::Module;
use crate::disasm::{disassemble_module, module_listed};
use crate::float::Host;
use crate::lgb::{decode_module, encode_module, exec_module, exec_reports, string_from_utf8, STEP_LIMIT};
use crate::lgb_format::rd_module;
use crate::manifest::{build_manifest, manifest_of, manifest_text, parse_manifest, PackMeta, MANIFEST_PATH, PACKAGE_VERSION, trim};
use crate::manifest_laws::{lemma_manifest_roundtrip, one_line};
use crate::lgb_format::{enc_module, module_fits};
use crate::lgb_laws::{lemma_decode_encode, module_reads_back};
use crate::chunk::ModuleV;
use vstd::utf8::{decode_utf8, encode_utf8, encode_utf8_decode_utf8, encode_utf8_valid_utf8, valid_utf8};
use crate::semantics::{run_spec, RunEnd};
use crate::text::{owned, push_str, str_eq};

verus! {

#[verifier::external_type_specification]
#[verifier::external_body]
#[verifier::reject_recursive_types(T)]
pub struct ExCursor<T>(Cursor<T>);

/// A ZIP archive being written into memory, held opaque: its contents are
/// known through `zip_out_entries`.
#[verifier::external_body]
pub struct ZipOut {
    inner: ZipWriter<Cursor<Vec<u8>>>,
}

#[verifier::external_type_specification]
#[verifier::external_body]
#[verifier::reject_recursive_types(R)]
pub struct ExZipArchive<R>(ZipArchive<R>);

/// Why an entry of an archive could not be had.
#[derive(Debug)]
pub enum EntryError {
    /// No entry of that name, with the archive's reason.
    Missing(String),
    /// The entry could not be read, with the reason.
    Read(String),
}

/// An error in building or reading a package.
#[derive(Debug)]
pub struct PackError {
    pub message: String,
}

fn perr(message: String) -> (e: PackError)
    ensures
        e.message == message,
{
    PackError { message }
}

fn prefixed(prefix: &str, detail: &str) -> (s: String)
    ensures
        s@ == prefix@ + detail@,
{
    let mut s = owned(prefix);
    push_str(&mut s, detail);
    s
}

/// The entries written so far into a ZIP writer: each name with its
/// content.
pub uninterp spec fn zip_out_entries(w: ZipOut) -> Seq<(Seq<char>, Seq<u8>)>;

/// The entry names, in the order of its directory, of the ZIP archive in
/// `bytes`; `None` when `zip::ZipArchive::new` refuses the bytes.
pub uninterp spec fn zip_dir(bytes: Seq<u8>) -> Option<Seq<Seq<char>>>;

/// The content of the entry named `name` of the ZIP archive in `bytes`;
/// `None` when there is no such entry or it cannot be read to its end.
pub uninterp spec fn zip_data(bytes: Seq<u8>, name: Seq<char>) -> Option<Seq<u8>>;

/// Whether `zip::ZipArchive::by_index` gives entry `i` of the ZIP archive in
/// `bytes` (it refuses, for one, an encrypted entry or one whose local
/// header is damaged).
pub uninterp spec fn zip_index_opens(bytes: Seq<u8>, i: int) -> bool;

/// The bytes that a ZIP archive reader was opened on.
pub uninterp spec fn archive_source(a: ZipArchive<Cursor<Vec<u8>>>) -> Seq<u8>;

/// Whether the last of the entries, if any, holds under 2 GiB.
pub open spec fn last_fits(es: Seq<(Seq<char>, Seq<u8>)>) -> bool {
    es.len() > 0 ==> es.last().1.len() <= 0x7FFF_FFFF
}

/// Whether every entry name fits the 16-bit name length of a ZIP header.
pub open spec fn names_fit(es: Seq<(Seq<char>, Seq<u8>)>) -> bool {
    forall|i: int| 0 <= i < es.len() ==> encode_utf8((#[trigger] es[i]).0).len() <= 65535
}

/// Whether every entry holds under 2 GiB.
pub open spec fn contents_fit(es: Seq<(Seq<char>, Seq<u8>)>) -> bool {
    forall|i: int| 0 <= i < es.len() ==> (#[trigger] es[i]).1.len() <= 0x7FFF_FFFF
}

/// A ZIP writer over an empty in-memory buffer.
///
/// Trusted: calls `zip::ZipWriter::new` on `std::io::Cursor::new` of an
/// empty vector; claims that nothing is written yet.
#[verifier::external_body]
fn zip_writer_new() -> (w: ZipOut)
    ensures
        zip_out_entries(w) == Seq::<(Seq<char>, Seq<u8>)>::empty(),
{
    ZipOut { inner: ZipWriter::new(Cursor::new(Vec::new())) }
}

/// Starts a deflated entry named `name`, or gives the writer's error text.
///
/// Trusted: calls `zip::ZipWriter::start_file` with deflate compression.
/// The name must fit the 16-bit length of a ZIP header (a longer one makes
/// the crate panic). Claims, when it succeeds, that a new empty entry of
/// that name follows the others and that no earlier entry had that name
/// (the crate refuses a duplicate name); and that it succeeds when the name
/// is new and the entry before it holds under 2 GiB (the crate refuses to
/// close an entry of 4 GiB or more without its large-file option; writing
/// into memory fails in no other way).
#[verifier::external_body]
fn zip_start_file(w: &mut ZipOut, name: &str) -> (r: Result<(), String>)
    requires
        encode_utf8(name@).len() <= 65535,
    ensures
        (forall|i: int| 0 <= i < zip_out_entries(*old(w)).len() ==> (#[trigger] zip_out_entries(*old(w))[i]).0 != name@)
            && last_fits(zip_out_entries(*old(w))) ==> r is Ok,
        r is Ok ==> zip_out_entries(*final(w)) == zip_out_entries(*old(w)).push((name@, Seq::empty())),
        r is Ok ==> forall|i: int| 0 <= i < zip_out_entries(*old(w)).len()
            ==> (#[trigger] zip_out_entries(*old(w))[i]).0 != name@,
{
    let opts = zip::write::SimpleFileOptions::default().compression_method(zip::CompressionMethod::Deflated);
    match w.inner.start_file(name, opts) {
        Ok(()) => Ok(()),
        Err(e) => Err(e.to_string()),
    }
}

/// Writes `data` into the current entry, or gives the error text.
///
/// Trusted: calls `std::io::Write::write_all` on the ZIP writer, which must
/// have an entry started. Claims, when it succeeds, that `data` now ends
/// the content of the last entry; and that it succeeds when the entry then
/// holds under 2 GiB (the crate refuses more than 4 GiB in an entry without
/// its large-file option; writing into memory fails in no other way).
#[verifier::external_body]
fn zip_write_all(w: &mut ZipOut, data: &[u8]) -> (r: Result<(), String>)
    requires
        zip_out_entries(*old(w)).len() > 0,
    ensures
        zip_out_entries(*old(w)).last().1.len() + data@.len() <= 0x7FFF_FFFF ==> r is Ok,
        r is Ok ==> zip_out_entries(*final(w)) == zip_out_entries(*old(w)).update(
            zip_out_entries(*old(w)).len() - 1,
            (zip_out_entries(*old(w)).last().0, zip_out_entries(*old(w)).last().1 + data@)),
{
    match std::io::Write::write_all(&mut w.inner, data) {
        Ok(()) => Ok(()),
        Err(e) => Err(e.to_string()),
    }
}

/// Writes the central directory and gives back the bytes of the archive,
/// or the error text.
///
/// Trusted: calls `zip::ZipWriter::finish` and `std::io::Cursor::into_inner`
/// on the cursor it gives back. Claims, when it succeeds, that reading the
/// bytes gives back what was written: the entry names in order, and each
/// entry's content; and that it succeeds when the last entry holds under
/// 2 GiB (closing it is the only step that can fail in memory).
#[verifier::external_body]
fn zip_finish(w: ZipOut) -> (r: Result<Vec<u8>, String>)
    ensures
        last_fits(zip_out_entries(w)) ==> r is Ok,
        r matches Ok(b) ==> zip_dir(b@) == Some(Seq::new(zip_out_entries(w).len(), |i: int| zip_out_entries(w)[i].0)),
        r matches Ok(b) ==> forall|i: int| 0 <= i < zip_out_entries(w).len()
            ==> zip_data(b@, (#[trigger] zip_out_entries(w)[i]).0) == Some(zip_out_entries(w)[i].1),
{
    match w.inner.finish() {
        Ok(c) => Ok(c.into_inner()),
        Err(e) => Err(e.to_string()),
    }
}

/// Reads the directory of the ZIP archive in `bytes`, or gives the error
/// text.
///
/// Trusted: calls `zip::ZipArchive::new` on `std::io::Cursor::new` of the
/// bytes. Claims that it succeeds exactly when the bytes have a directory,
/// and that the reader reads those bytes.
#[verifier::external_body]
fn zip_archive_new(bytes: Vec<u8>) -> (r: Result<ZipArchive<Cursor<Vec<u8>>>, String>)
    ensures
        r is Ok <==> zip_dir(bytes@) is Some,
        r matches Ok(a) ==> archive_source(a) == bytes@,
{
    match ZipArchive::new(Cursor::new(bytes)) {
        Ok(a) => Ok(a),
        Err(e) => Err(e.to_string()),
    }
}

/// The whole content of the entry named `name`.
///
/// Trusted: calls `zip::ZipArchive::by_name` and reads the entry it gives
/// to its end with `std::io::Read::read_to_end`. Claims that it gives the
/// entry's content exactly when it can be read, that `by_name`'s
/// `FileNotFound` (the only error it gives for a name not in the directory)
/// is reported as missing, and that reading leaves the archive's bytes as
/// they were.
#[verifier::external_body]
fn zip_entry_bytes(a: &mut ZipArchive<Cursor<Vec<u8>>>, name: &str) -> (r: Result<Vec<u8>, EntryError>)
    ensures
        archive_source(*final(a)) == archive_source(*old(a)),
        match zip_data(archive_source(*old(a)), name@) {
            Some(d) => r matches Ok(b) && b@ == d,
            None => r is Err,
        },
        r matches Err(EntryError::Missing(_)) ==> (zip_dir(archive_source(*old(a))) matches Some(ns)
            ==> !ns.contains(name@)),
{
    let mut f = match a.by_name(name) {
        Ok(f) => f,
        Err(e @ zip::result::ZipError::FileNotFound) => return Err(EntryError::Missing(e.to_string())),
        Err(e) => return Err(EntryError::Read(e.to_string())),
    };
    let mut buf = Vec::new();
    match std::io::Read::read_to_end(&mut f, &mut buf) {
        Ok(_) => Ok(buf),
        Err(e) => Err(EntryError::Read(e.to_string())),
    }
}

/// How many entries the archive has.
///
/// Trusted: calls `zip::ZipArchive::len`; claims it is the number of names
/// in the directory.
#[verifier::external_body]
fn zip_len(a: &ZipArchive<Cursor<Vec<u8>>>) -> (n: usize)
    ensures
        zip_dir(archive_source(*a)) matches Some(ns) ==> n == ns.len(),
{
    a.len()
}

/// The name of entry `i`, or the error text.
///
/// Trusted: calls `zip::ZipArchive::by_index` and the entry's `name`.
/// Claims that a name it gives is the `i`-th name of the directory, that
/// it succeeds exactly when `by_index` opens the entry (which depends on the
/// bytes and `i` alone: the reader seeks to the entry), and that the
/// archive's bytes stay as they were.
#[verifier::external_body]
fn zip_entry_name(a: &mut ZipArchive<Cursor<Vec<u8>>>, i: usize) -> (r: Result<String, String>)
    ensures
        archive_source(*final(a)) == archive_source(*old(a)),
        r matches Ok(s) ==> (zip_dir(archive_source(*old(a))) matches Some(ns) ==> i < ns.len() && s@ == ns[i as int]),
        r is Ok <==> zip_index_opens(archive_source(*old(a)), i as int),
{
    match a.by_index(i) {
        Ok(f) => Ok(f.name().to_string()),
        Err(e) => Err(e.to_string()),
    }
}

fn copy_bytes(bs: &[u8]) -> (v: Vec<u8>)
    ensures
        v@ == bs@,
{
    let mut v: Vec<u8> = Vec::new();
    let mut i: usize = 0;
    while i < bs.len()
        invariant
            i <= bs@.len(),
            v@ == bs@.subrange(0, i as int),
        decreases bs@.len() - i,
    {
        v.push(bs[i]);
        i = i + 1;
    }
    assert(bs@.subrange(0, bs@.len() as int) =~= bs@);
    v
}

fn zip_step(r: Result<(), String>) -> (o: Result<(), PackError>)
    ensures
        r is Ok <==> o is Ok,
{
    match r {
        Ok(()) => Ok(()),
        Err(e) => Err(perr(prefixed("zip: ", e.as_str()))),
    }
}

/// The entries of a package: the manifest naming `entry`, the entry's
/// bytecode `code`, and each resource under `resources/`.
pub open spec fn package_entries(entry: Seq<char>, code: Seq<u8>, rs: Seq<(String, Vec<u8>)>)
    -> Seq<(Seq<char>, Seq<u8>)>
{
    seq![(MANIFEST_PATH@, encode_utf8(manifest_text(entry))), (entry, code)]
        + Seq::new(rs.len(), |k: int| ("resources/"@ + rs[k].0@, rs[k].1@))
}

/// Whether `b` is a ZIP archive of exactly the entries `es`, in order,
/// with names that differ.
pub open spec fn archive_of(b: Seq<u8>, es: Seq<(Seq<char>, Seq<u8>)>) -> bool {
    &&& zip_dir(b) == Some(Seq::new(es.len(), |i: int| es[i].0))
    &&& forall|i: int| 0 <= i < es.len() ==> zip_data(b, (#[trigger] es[i]).0) == Some(es[i].1)
    &&& forall|i: int, j: int| 0 <= i < j < es.len() ==> (#[trigger] es[i]).0 != (#[trigger] es[j]).0
}

/// Names in `es` differ.
pub open spec fn names_differ(es: Seq<(Seq<char>, Seq<u8>)>) -> bool {
    forall|i: int, j: int| 0 <= i < j < es.len() ==> (#[trigger] es[i]).0 != (#[trigger] es[j]).0
}

/// Whether a name fits a ZIP header, as the bytes of its UTF-8.
fn name_fits(name: &str) -> (r: bool)
    ensures
        r == (encode_utf8(name@).len() <= 65535),
{
    name.as_bytes().len() <= 65535
}

/// Builds a package: the manifest naming `entry_name`, the module's
/// bytecode under `entry_name`, and each resource under `resources/` by
/// its name. It fails when the module does not fit the bytecode format,
/// when a name is longer than a ZIP header holds, or when two entries
/// share a name; it succeeds otherwise, as long as each entry holds under
/// 2 GiB.
pub fn pack_bytes(module: &Module, entry_name: &str, resources: &Vec<(String, Vec<u8>)>)
    -> (r: Result<Vec<u8>, PackError>)
    ensures
        !module_fits(module.view()) ==> r is Err,
        !names_fit(package_entries(entry_name@, enc_module(module.view()), resources@)) ==> r is Err,
        !names_differ(package_entries(entry_name@, enc_module(module.view()), resources@)) ==> r is Err,
        module_fits(module.view()) && names_fit(package_entries(entry_name@, enc_module(module.view()), resources@))
            && names_differ(package_entries(entry_name@, enc_module(module.view()), resources@))
            && contents_fit(package_entries(entry_name@, enc_module(module.view()), resources@)) ==> r is Ok,
        r matches Ok(b) ==> module_fits(module.view())
            && archive_of(b@, package_entries(entry_name@, enc_module(module.view()), resources@)),
{
    let lgb = match encode_module(module) {
        Ok(b) => b,
        Err(e) => return Err(perr(e.message)),
    };
    let ghost es = package_entries(entry_name@, lgb@, resources@);
    let ghost ok = names_differ(es) && contents_fit(es);
    if !name_fits(MANIFEST_PATH) || !name_fits(entry_name) {
        assert(es[0].0 == MANIFEST_PATH@ && es[1].0 == entry_name@);
        return Err(perr(owned("entry name too long for a zip header")));
    }
    let mut k: usize = 0;
    while k < resources.len()
        invariant
            k <= resources@.len(),
            es == package_entries(entry_name@, lgb@, resources@),
            es == package_entries(entry_name@, enc_module(module.view()), resources@),
            module_fits(module.view()),
            forall|q: int| 0 <= q < 2 + k ==> encode_utf8((#[trigger] es[q]).0).len() <= 65535,
        decreases resources@.len() - k,
    {
        let inner = prefixed("resources/", resources[k].0.as_str());
        if !name_fits(inner.as_str()) {
            assert(es[2 + k as int].0 == inner@);
            return Err(perr(owned("entry name too long for a zip header")));
        }
        assert(es[2 + k as int].0 == inner@);
        k = k + 1;
    }
    assert(names_fit(es));
    let manifest = build_manifest(entry_name);
    let mut w = zip_writer_new();
    zip_step(zip_start_file(&mut w, MANIFEST_PATH))?;
    zip_step(zip_write_all(&mut w, manifest.as_str().as_bytes()))?;
    assert(zip_out_entries(w) =~= es.take(1));
    proof {
        if ok {
            assert(es[0].0 != es[1].0);
        }
    }
    zip_step(zip_start_file(&mut w, entry_name))?;
    zip_step(zip_write_all(&mut w, lgb.as_slice()))?;
    assert(zip_out_entries(w) =~= es.take(2));
    let mut i: usize = 0;
    while i < resources.len()
        invariant
            i <= resources@.len(),
            es == package_entries(entry_name@, lgb@, resources@),
            ok == (names_differ(es) && contents_fit(es)),
            es == package_entries(entry_name@, enc_module(module.view()), resources@),
            module_fits(module.view()),
            names_fit(es),
            zip_out_entries(w) == es.take(2 + i),
            names_differ(zip_out_entries(w)),
            ok ==> last_fits(zip_out_entries(w)),
        decreases resources@.len() - i,
    {
        let inner = prefixed("resources/", resources[i].0.as_str());
        let ghost before = zip_out_entries(w);
        assert(es[2 + i as int].0 == inner@);
        proof {
            if ok {
                assert forall|q: int| 0 <= q < before.len() implies (#[trigger] before[q]).0 != inner@ by {
                    assert(before[q] == es[q]);
                }
            }
        }
        zip_step(zip_start_file(&mut w, inner.as_str()))?;
        assert(es[2 + i as int].1 == resources[i as int].1@);
        zip_step(zip_write_all(&mut w, resources[i].1.as_slice()))?;
        assert(zip_out_entries(w) =~= es.take(2 + i + 1));
        i = i + 1;
    }
    assert(zip_out_entries(w) =~= es);
    match zip_finish(w) {
        Ok(b) => Ok(b),
        Err(e) => Err(perr(prefixed("zip finish: ", e.as_str()))),
    }
}

/// Whether `b` reads as a package: a ZIP archive with a manifest in UTF-8
/// and the entry bytecode that the manifest names.
pub open spec fn package_readable(b: Seq<u8>) -> bool {
    &&& zip_dir(b) is Some
    &&& match zip_data(b, MANIFEST_PATH@) {
        Some(mb) => valid_utf8(mb) && zip_data(b, manifest_of(decode_utf8(mb)).0) is Some,
        None => false,
    }
}

/// Reads a package: its manifest, and the bytes of the entry bytecode the
/// manifest names.
pub fn read_package(bytes: &[u8]) -> (r: Result<(PackMeta, Vec<u8>), PackError>)
    ensures
        r matches Ok((meta, code)) ==> zip_data(bytes@, MANIFEST_PATH@) matches Some(mb) && valid_utf8(mb)
            && (meta.main_bytecode@, meta.package_version@) == manifest_of(decode_utf8(mb))
            && zip_data(bytes@, meta.main_bytecode@) == Some(code@),
        package_readable(bytes@) <==> r is Ok,
{
    let mut a = match zip_archive_new(copy_bytes(bytes)) {
        Ok(a) => a,
        Err(e) => return Err(perr(prefixed("not a zip/lgpack: ", e.as_str()))),
    };
    let mbytes = match zip_entry_bytes(&mut a, MANIFEST_PATH) {
        Ok(b) => b,
        Err(EntryError::Missing(_)) => return Err(perr(owned("missing META-INF/MANIFEST.MF in package"))),
        Err(EntryError::Read(e)) => return Err(perr(prefixed("read manifest: ", e.as_str()))),
    };
    let ghost mb = mbytes@;
    let text = match string_from_utf8(mbytes) {
        Some(t) => t,
        None => return Err(perr(owned("read manifest: stream did not contain valid UTF-8"))),
    };
    let meta = parse_manifest(text.as_str());
    let code = match zip_entry_bytes(&mut a, meta.main_bytecode.as_str()) {
        Ok(b) => b,
        Err(EntryError::Missing(e)) => {
            let mut m = owned("missing `");
            push_str(&mut m, meta.main_bytecode.as_str());
            push_str(&mut m, "` in package: ");
            push_str(&mut m, e.as_str());
            return Err(perr(m));
        },
        Err(EntryError::Read(e)) => return Err(perr(prefixed("read bytecode: ", e.as_str()))),
    };
    Ok((meta, code))
}

/// Reading a built package gives back the entry bytecode it names, at
/// package version `1`, and that bytecode: for an entry name of one line
/// without white space at its ends.
pub proof fn lemma_package_read_back(b: Seq<u8>, entry: Seq<char>, code: Seq<u8>, rs: Seq<(String, Vec<u8>)>)
    requires
        archive_of(b, package_entries(entry, code, rs)),
        one_line(entry),
        trim(entry) == entry,
    ensures
        package_readable(b),
        zip_data(b, MANIFEST_PATH@) matches Some(mb) && manifest_of(decode_utf8(mb)) == (entry, "1"@),
        zip_data(b, entry) == Some(code),
{
    let es = package_entries(entry, code, rs);
    assert(es[0] == (MANIFEST_PATH@, encode_utf8(manifest_text(entry))));
    assert(es[1] == (entry, code));
    assert(zip_data(b, es[0].0) == Some(es[0].1));
    assert(zip_data(b, es[1].0) == Some(es[1].1));
    encode_utf8_valid_utf8(manifest_text(entry));
    encode_utf8_decode_utf8(manifest_text(entry));
    lemma_manifest_roundtrip(entry);
}

/// The refusal of a package of another version.
pub open spec fn version_refused_text(v: Seq<char>) -> Seq<char> {
    "unsupported lgpack version "@ + v + " (this build supports 1)"@
}

/// Runs the entry bytecode of a package whose manifest says `meta`: a
/// package of another version than `1` is refused; bytes that do not hold
/// a module give the decoding error; else the module runs.
pub fn exec_entry<H: Host>(meta: &PackMeta, code: &[u8], host: &mut H) -> (r: Result<Vec<String>, String>)
    ensures
        meta.package_version@ != "1"@ ==> r == Err::<Vec<String>, String>(
            r->Err_0) && r->Err_0@ == version_refused_text(meta.package_version@),
        meta.package_version@ == "1"@ && rd_module(code@) is None ==> r is Err,
        meta.package_version@ == "1"@ && rd_module(code@) is Some ==> exists|m: Module, end: RunEnd|
            m.view() == rd_module(code@)->Some_0 && exec_reports(r, end) && run_spec(&m, STEP_LIMIT as nat, end),
{
    if !str_eq(meta.package_version.as_str(), PACKAGE_VERSION) {
        let mut m = owned("unsupported lgpack version ");
        push_str(&mut m, meta.package_version.as_str());
        push_str(&mut m, " (this build supports 1)");
        return Err(m);
    }
    let module = match decode_module(code) {
        Ok(m) => m,
        Err(e) => return Err(e.to_text()),
    };
    exec_module(&module, host)
}

/// What the manifest of a readable package says: its entry bytecode and
/// its version.
pub open spec fn package_meta(b: Seq<u8>) -> (Seq<char>, Seq<char>) {
    manifest_of(decode_utf8(zip_data(b, MANIFEST_PATH@)->Some_0))
}

/// The entry bytecode of a readable package.
pub open spec fn package_code(b: Seq<u8>) -> Seq<u8> {
    zip_data(b, package_meta(b).0)->Some_0
}

/// Runs a package given as bytes.
pub fn exec_package<H: Host>(bytes: &[u8], host: &mut H) -> (r: Result<Vec<String>, String>)
    ensures
        !package_readable(bytes@) ==> r is Err,
        package_readable(bytes@) && package_meta(bytes@).1 != "1"@
            ==> (r matches Err(e) && e@ == version_refused_text(package_meta(bytes@).1)),
        package_readable(bytes@) && package_meta(bytes@).1 == "1"@ ==> match rd_module(package_code(bytes@)) {
            None => r is Err,
            Some(mv) => exists|m: Module, end: RunEnd| m.view() == mv && exec_reports(r, end)
                && #[trigger] run_spec(&m, STEP_LIMIT as nat, end),
        },
{
    let (meta, code) = match read_package(bytes) {
        Ok(x) => x,
        Err(e) => return Err(e.message),
    };
    exec_entry(&meta, code.as_slice(), host)
}

/// A package built from a module runs that module: reading it gives back
/// the entry it names, at version `1`, and its bytecode decodes to the
/// module (for an entry name of one line without white space at its ends,
/// and a module that its bytecode holds).
pub proof fn lemma_packed_module_runs(b: Seq<u8>, entry: Seq<char>, m: ModuleV, rs: Seq<(String, Vec<u8>)>)
    requires
        archive_of(b, package_entries(entry, enc_module(m), rs)),
        one_line(entry),
        trim(entry) == entry,
        module_fits(m),
        module_reads_back(m),
    ensures
        package_readable(b),
        package_meta(b) == (entry, "1"@),
        rd_module(package_code(b)) == Some(m),
{
    lemma_package_read_back(b, entry, enc_module(m), rs);
    lemma_decode_encode(m, Seq::empty());
    assert(enc_module(m) + Seq::<u8>::empty() =~= enc_module(m));
}

/// The header of a package listing.
pub open spec fn listing_header(label: Seq<char>, meta: (Seq<char>, Seq<char>)) -> Seq<char> {
    "; lgpack "@ + label + "\n; Main-Bytecode: "@ + meta.0 + "\n; package version: "@ + meta.1 + "\n\n"@
}

/// A listing of the entry bytecode of a package, under a header that names
/// the package (`label`), its entry and its version.
pub fn disasm_package<H: Host>(label: &str, bytes: &[u8], host: &H) -> (r: Result<String, PackError>)
    ensures
        r is Ok <==> package_readable(bytes@) && rd_module(package_code(bytes@)) is Some,
        r matches Ok(t) ==> exists|d: Seq<char>| t@ == #[trigger] listing_header(label@, package_meta(bytes@)) + d
            && module_listed(rd_module(package_code(bytes@))->Some_0, d),
{
    let (meta, code) = read_package(bytes)?;
    let module = match decode_module(code.as_slice()) {
        Ok(m) => m,
        Err(e) => return Err(perr(e.message)),
    };
    let mut out = owned("; lgpack ");
    push_str(&mut out, label);
    push_str(&mut out, "\n; Main-Bytecode: ");
    push_str(&mut out, meta.main_bytecode.as_str());
    push_str(&mut out, "\n; package version: ");
    push_str(&mut out, meta.package_version.as_str());
    push_str(&mut out, "\n\n");
    let ghost h = out@;
    let d = disassemble_module(&module, host);
    push_str(&mut out, d.as_str());
    assert(out@ == listing_header(label@, package_meta(bytes@)) + d@);
    assert(module_listed(rd_module(package_code(bytes@))->Some_0, d@));
    Ok(out)
}

/// The names of the entries of a package.
pub fn list_package(bytes: &[u8]) -> (r: Result<Vec<String>, PackError>)
    ensures
        zip_dir(bytes@) is None ==> r is Err,
        (zip_dir(bytes@) matches Some(d) && forall|k: int| 0 <= k < d.len() ==> #[trigger] zip_index_opens(bytes@, k))
            ==> r is Ok,
        r matches Ok(ns) ==> zip_dir(bytes@) matches Some(d) && ns@.len() == d.len()
            && forall|k: int| 0 <= k < d.len() ==> (#[trigger] ns@[k])@ == d[k],
{
    let mut a = match zip_archive_new(copy_bytes(bytes)) {
        Ok(a) => a,
        Err(e) => return Err(perr(prefixed("not a zip/lgpack: ", e.as_str()))),
    };
    let ghost d = zip_dir(bytes@)->Some_0;
    let n = zip_len(&a);
    let mut names: Vec<String> = Vec::new();
    let mut i: usize = 0;
    while i < n
        invariant
            i <= n,
            n == d.len(),
            zip_dir(bytes@) == Some(d),
            archive_source(a) == bytes@,
            names@.len() == i,
            forall|k: int| 0 <= k < i ==> (#[trigger] names@[k])@ == d[k],
        decreases n - i,
    {
        match zip_entry_name(&mut a, i) {
            Ok(s) => names.push(s),
            Err(e) => return Err(perr(e)),
        }
        i = i + 1;
    }
    Ok(names)
}

} // verus!
