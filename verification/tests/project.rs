//! Projects: a manifest and the documents that belong to it.

use lxlake::path::places::Platform;
use lxlake::project::{
    is_document, line_column, manifest_from, parse_manifest, sort_key, Entry, Project, ProjectError,
    MANIFEST_FILE,
};

const MANIFEST: &str = "name = \"样例\"\nversion = \"0.2.0\"\nentry = \"ui/main.lxml\"\n";

fn open(manifest: Option<&str>, found: &[&str]) -> Result<Project, ProjectError> {
    let found = found.iter().map(|name| (*name).to_owned()).collect();
    Project::open("/work/sample", manifest, Ok(found))
}

#[test]
fn open_reads_the_manifest_and_lists_the_documents() {
    let found = ["ui/panels/inner.lxml", "ui/main.lxml"];
    let project = open(Some(MANIFEST), &found).unwrap();

    assert_eq!(project.manifest().name, "样例");
    assert_eq!(project.manifest().version, "0.2.0");
    assert_eq!(project.entry(), "ui/main.lxml");
    assert_eq!(project.documents(), ["ui/main.lxml", "ui/panels/inner.lxml"]);
    assert_eq!(project.root(), "/work/sample");
    assert!(is_document("inner.lxml"));
    assert!(!is_document("readme.md"));
}

#[test]
fn a_project_on_windows_is_opened_by_either_separator() {
    let manifest = "name = \"x\"\nentry = \"ui\\\\main.lxml\"\n";
    let found = || Ok(vec!["ui/main.lxml".to_owned()]);
    let project = Project::open_on(Platform::Windows, r"C:\work", Some(manifest), found()).unwrap();
    assert_eq!(project.documents(), ["ui/main.lxml"]);
    match Project::open_on(Platform::Linux, "/work", Some(manifest), found()).unwrap_err() {
        ProjectError::EntryMissing { path, .. } => assert_eq!(path, r"/work/ui\main.lxml"),
        other => panic!("{other:?}"),
    }
    match Project::open_on(Platform::Windows, r"C:\work", None, found()).unwrap_err() {
        ProjectError::ManifestMissing { path } => assert_eq!(path, r"C:\work\lxlake.toml"),
        other => panic!("{other:?}"),
    }
}

#[test]
fn version_defaults_when_the_manifest_omits_it() {
    let source = "name = \"样例\"\nentry = \"ui/main.lxml\"\n";
    let project = open(Some(source), &["ui/main.lxml"]).unwrap();

    assert_eq!(project.manifest().version, "0.1.0");
}

#[test]
fn a_directory_without_a_manifest_is_not_a_project_root() {
    let error = open(None, &["ui/main.lxml"]).unwrap_err();

    assert!(matches!(error, ProjectError::ManifestMissing { .. }), "{error:?}");
    assert!(error.display().contains(MANIFEST_FILE), "{}", error.display());
}

#[test]
fn a_broken_manifest_points_at_the_line() {
    let error = open(Some("name = \"样例\"\nversion =\n"), &[]).unwrap_err();

    match error {
        ProjectError::Manifest { line, column, .. } => {
            assert_eq!(line, 2);
            assert!(column > 0);
        }
        other => panic!("{other:?}"),
    }
}

#[test]
fn a_manifest_without_an_entry_is_reported() {
    let error = open(Some("name = \"样例\"\n"), &[]).unwrap_err();

    match error {
        ProjectError::Manifest { line, message, .. } => {
            assert_eq!(line, 0);
            assert!(message.contains("entry"), "{message}");
        }
        other => panic!("{other:?}"),
    }
}

#[test]
fn an_entry_that_is_not_there_is_reported() {
    let source = "name = \"样例\"\nentry = \"ui/nope.lxml\"\n";
    let error = open(Some(source), &["ui/main.lxml"]).unwrap_err();

    assert!(matches!(error, ProjectError::EntryMissing { .. }), "{error:?}");
    assert!(error.display().contains("ui/nope.lxml"), "{}", error.display());
}

#[test]
fn line_column_counts_characters_not_bytes() {
    let source = "a\n中b";

    assert_eq!(line_column(source, 0), (1, 1));
    assert_eq!(line_column(source, 2), (2, 1));
    assert_eq!(line_column(source, 5), (2, 2));
    assert_eq!(line_column(source, 999), (2, 3));
}

#[test]
fn a_directory_that_cannot_be_read_is_reported() {
    let failure = ProjectError::Read { path: "/work/sample/ui".to_owned(), reason: "no".to_owned() };
    let error = Project::open("/work/sample", Some(MANIFEST), Err(failure)).unwrap_err();

    assert_eq!(error.display(), "读 /work/sample/ui 失败：no");
}

#[test]
fn a_field_of_another_type_is_not_taken() {
    let entries = vec![
        Entry { key: "entry".to_owned(), text: Some("ui/a.lxml".to_owned()) },
        Entry { key: "name".to_owned(), text: None },
    ];
    assert!(manifest_from(&entries).is_err());
    assert!(parse_manifest("name = 3\nentry = \"ui/a.lxml\"\n").is_err());
    assert_eq!(parse_manifest(MANIFEST).unwrap().entry, "ui/main.lxml");
}

#[test]
fn documents_are_sorted_by_their_text() {
    let found = ["ui/b.lxml", "ui\\a\\z.lxml", "ui/a.lxml", "ui/main.lxml"];
    let project = open(Some(MANIFEST), &found).unwrap();
    assert_eq!(
        project.documents(),
        ["ui/a.lxml", "ui\\a\\z.lxml", "ui/b.lxml", "ui/main.lxml"]
    );
    assert_eq!(sort_key("ui\\a\\z.lxml"), "ui/a/z.lxml");
}
