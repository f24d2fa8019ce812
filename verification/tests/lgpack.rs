//! Package manifests and packages.

use laughter::manifest::{build_manifest, parse_manifest, PACKAGE_VERSION};

#[test]
fn manifest_roundtrip() {
    let m = build_manifest("main.lgb");
    let meta = parse_manifest(&m);
    assert_eq!(meta.main_bytecode, "main.lgb");
    assert_eq!(meta.package_version, PACKAGE_VERSION);
}

#[test]
fn manifest_entry_is_read_back_trimmed() {
    let m = parse_manifest(&build_manifest("  app/main.lgb \t"));
    assert_eq!(m.main_bytecode, "app/main.lgb");
    assert_eq!(m.package_version, "1");
    let m = parse_manifest(&build_manifest(""));
    assert_eq!(m.main_bytecode, "");
    let m = parse_manifest("# comment\nMain-Bytecode: x.lgb\nMain-Bytecode: y.lgb\nLaughter-Package-Version: 2");
    assert_eq!(m.main_bytecode, "y.lgb");
    assert_eq!(m.package_version, "2");
    let m = parse_manifest("");
    assert_eq!(m.main_bytecode, "app.lgb");
}
