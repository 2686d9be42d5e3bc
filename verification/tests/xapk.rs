use ctadl_ascent::cli::{ImportEvent, ImportOptions, ImportStep};
use ctadl_ascent::error::Error;
use ctadl_ascent::xapk::{
    extracted_split, is_nothing_to_import, join_path, order_splits, require_splits, sanitize,
    split_destination, split_step, splits_dir, sub_import_name,
};
use ctadl_ascent::xapk::{AfterSplit, ArtifactImport, BundleImport, Split, SplitApkEntry};

fn parent() -> ArtifactImport {
    ArtifactImport {
        name: "app".to_string(),
        import_path: "/store/app".to_string(),
        artifact_path: "/tmp/app.xapk".to_string(),
        sub_imports: vec![],
    }
}

fn no_code() -> Error {
    Error::NothingToImport { message: "resource-only".to_string() }
}

#[test]
fn sub_import_name_is_prefixed_and_sanitized() {
    assert_eq!(
        sub_import_name("chrome", "config.arm64_v8a"),
        "chrome__config.arm64_v8a"
    );
    assert_eq!(sub_import_name("a b", "x/y"), "a_b__x_y");
}

/// The split's file name is built from its stem, so nothing in a hostile bundle can redirect
/// the write out of the import directory.
#[test]
fn a_traversing_stem_cannot_escape_the_splits_dir() {
    let name = sanitize("../../evil");
    assert_eq!(name, ".._.._evil");
    assert!(!name.contains('/'));
}

/// The one error a bundle import swallows, recognized through the context wrapper the store
/// layer adds.
#[test]
fn nothing_to_import_is_recognized_through_context() {
    let bare = Error::NothingToImport {
        message: "resource-only".to_string(),
    };
    assert!(is_nothing_to_import(&bare));
    let wrapped = bare.in_context("importing split");
    assert!(is_nothing_to_import(&wrapped));
    assert!(!is_nothing_to_import(&Error::Path {
        message: "unrelated".to_string()
    }));
}

#[test]
fn a_split_is_extracted_into_the_import() {
    let entry = SplitApkEntry {
        entry_name: "../../evil.apk".to_string(),
        stem: "../../evil".to_string(),
    };
    assert_eq!(splits_dir(&parent()), "/store/app/splits");
    let dest = split_destination(&parent(), &entry);
    assert_eq!(dest, "/store/app/splits/.._.._evil.apk");
    let split = extracted_split(&parent(), &entry, dest, true);
    assert_eq!(split.name, "app__.._.._evil");
    assert_eq!(split.path, "/store/app/splits/.._.._evil.apk");
    assert!(split.has_dex);
}

#[test]
fn a_path_has_one_separator() {
    assert_eq!(join_path("a", "b"), "a/b");
    assert_eq!(join_path("a/", "b"), "a/b");
    assert_eq!(join_path("", "b"), "b");
}

#[test]
fn dex_bearing_splits_come_first() {
    let split = |name: &str, has_dex| Split {
        name: name.to_string(),
        path: String::new(),
        has_dex,
    };
    let mut splits =
        vec![split("arm", false), split("base", true), split("en", false), split("feature", true)];
    order_splits(&mut splits);
    let names: Vec<&str> = splits.iter().map(|s| s.name.as_str()).collect();
    assert_eq!(names, ["base", "feature", "arm", "en"]);
}

#[test]
fn an_archive_without_splits_is_no_bundle() {
    assert!(require_splits("a.xapk", 1).is_ok());
    match require_splits("a.xapk", 0) {
        Err(Error::NothingToImport { message }) => assert_eq!(
            message,
            "'a.xapk' has no top-level *.apk entries, so it is not an app bundle. An .xapk is a \
             ZIP of split APKs; if this is a plain APK, rename it or pass `--language apk`."
        ),
        other => panic!("expected an error, got {other:?}"),
    }
}

#[test]
fn the_list_of_sub_imports_is_flat() {
    let mut b = BundleImport::new();
    let libs = vec!["base__libx".to_string(), "base__liby".to_string()];
    assert_eq!(b.record("base", Ok(libs)).unwrap(), AfterSplit::Keep);
    assert_eq!(b.record("en", Err(no_code())).unwrap(), AfterSplit::Discard);
    assert_eq!(
        b.record("fr", Err(no_code().in_context("importing split"))).unwrap(),
        AfterSplit::Discard
    );
    assert_eq!(b.record("arm", Ok(vec![])).unwrap(), AfterSplit::Keep);
    assert_eq!(b.names, ["base", "base__libx", "base__liby", "arm"]);
    assert_eq!(b.skipped, 2);
}

#[test]
fn any_other_error_of_a_split_is_fatal() {
    let mut b = BundleImport::new();
    let broken = Error::Dex { message: "truncated".to_string() };
    match b.record("base", Err(broken)) {
        Err(Error::Dex { message }) => assert_eq!(message, "truncated"),
        other => panic!("expected an error, got {other:?}"),
    }
    assert!(b.names.is_empty());
    assert_eq!(b.skipped, 0);
}

#[test]
fn a_split_is_imported_unless_it_is_up_to_date() {
    let options = |skip_existing| ImportOptions {
        skip_existing,
        native_libs: true,
        native_abi: None,
    };
    let fresh = options(false);
    assert_eq!(split_step(&fresh, ImportEvent::Started), ImportStep::Create);
    assert_eq!(split_step(&fresh, ImportEvent::Created), ImportStep::Translate);
    assert_eq!(split_step(&fresh, ImportEvent::Translated), ImportStep::Reload);
    assert_eq!(split_step(&fresh, ImportEvent::Reloaded(true)), ImportStep::RecordHash);
    assert_eq!(split_step(&fresh, ImportEvent::HashRecorded), ImportStep::Finish);
    let again = options(true);
    assert_eq!(split_step(&again, ImportEvent::Started), ImportStep::CheckUpToDate);
    assert_eq!(split_step(&again, ImportEvent::Checked(true)), ImportStep::Finish);
    assert_eq!(split_step(&again, ImportEvent::Checked(false)), ImportStep::Create);
}
