use incremental::debug_eval::has_suffix;
use incremental::debug_eval::module_kind;
use incremental::debug_eval::module_kinds;
use incremental::debug_eval::DebugEvalError;
use incremental::debug_eval::ModuleKind;

#[test]
fn load_files_and_extension_scripts_are_told_apart() {
    assert_eq!(module_kind("cell//pkg/defs.bzl").unwrap(), ModuleKind::LoadFile);
    assert_eq!(module_kind("cell//pkg/script.bxl").unwrap(), ModuleKind::BxlFile);
    assert_eq!(module_kind(".bzl").unwrap(), ModuleKind::LoadFile);
    assert_eq!(module_kind("a.bxl.bzl").unwrap(), ModuleKind::LoadFile);
}

#[test]
fn other_paths_are_refused_by_name() {
    for path in ["cell//pkg/BUCK", "", "bzl", "x.bzl ", "x.BZL", "d\u{e9}fs.bz"] {
        match module_kind(path) {
            Err(DebugEvalError::InvalidImportPath(named)) => assert_eq!(named, path),
            Ok(kind) => panic!("{} was taken for {:?}", path, kind),
        }
    }
}

#[test]
fn message_names_the_path() {
    let e = DebugEvalError::InvalidImportPath("cell//pkg/BUCK".to_owned());
    assert_eq!(e.message(), "Can only eval `.bzl` or `.bxl`, but got `cell//pkg/BUCK`");
}

#[test]
fn first_invalid_path_is_the_error() {
    let good = vec!["a.bzl".to_owned(), "b.bxl".to_owned()];
    assert_eq!(module_kinds(&good).unwrap(), vec![ModuleKind::LoadFile, ModuleKind::BxlFile]);
    assert_eq!(module_kinds(&vec![]).unwrap(), vec![]);
    let bad = vec!["a.bzl".to_owned(), "b.txt".to_owned(), "c".to_owned()];
    match module_kinds(&bad) {
        Err(DebugEvalError::InvalidImportPath(named)) => assert_eq!(named, "b.txt"),
        Ok(_) => panic!("expected an error"),
    }
}

#[test]
fn suffixes_are_compared_by_characters() {
    assert!(has_suffix("d\u{e9}fs.bzl", ".bzl"));
    assert!(has_suffix("abc", ""));
    assert!(has_suffix("", ""));
    assert!(!has_suffix("bc", "abc"));
    assert!(has_suffix("\u{e9}\u{e8}", "\u{e8}"));
    assert!(!has_suffix("\u{e9}\u{e8}", "\u{e9}"));
}
