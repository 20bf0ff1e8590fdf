//! Names of pages, and the directory that they are saved in.
use ratwarren::config::ConfigError;
use ratwarren::files::Stage;
use ratwarren::pages::{
    is_one_component, FileFailure, PageName, PagesDir, PagesError, PathPart,
};
use std::collections::BTreeMap;
use std::path::PathBuf;

/// A directory that holds its files in memory.
struct Disk {
    dir: PagesDir<&'static str>,
    files: BTreeMap<String, Vec<u8>>,
}

fn missing() -> FileFailure {
    FileFailure { not_found: true, cause: "No such file or directory".to_string() }
}

impl Disk {
    fn new() -> Disk {
        Disk { dir: PagesDir::at("/pages"), files: BTreeMap::new() }
    }

    fn path(&self, name: &PageName) -> String {
        let located = self.dir.path_of(name);
        format!("{}/{}", located.base, located.segments.join("/"))
    }

    fn has(&self, name: &PageName) -> bool {
        self.files.contains_key(name.as_str())
    }

    fn list(&self) -> Result<Vec<PageName>, PagesError> {
        let mut names: Vec<String> = self.files.keys().cloned().collect();
        names.reverse();
        self.dir.list("/pages".to_string(), Ok(names))
    }

    fn load(&self, name: &PageName) -> Result<String, PagesError> {
        let read = match self.files.get(name.as_str()) {
            Some(bytes) => Ok(bytes.clone()),
            None => Err(missing()),
        };
        self.dir.load(name, self.path(name), read)
    }

    fn save(&mut self, name: &PageName, contents: &str) -> Result<(), PagesError> {
        self.files.insert(name.as_str().to_string(), contents.as_bytes().to_vec());
        let path = self.path(name);
        self.dir.save("/pages".to_string(), format!("{path}.tmp"), path, None)
    }

    fn rename(&mut self, from: &PageName, to: &PageName) -> Result<(), PagesError> {
        let taken = self.has(to);
        let renamed = if taken {
            Ok(())
        } else {
            match self.files.remove(from.as_str()) {
                Some(bytes) => {
                    self.files.insert(to.as_str().to_string(), bytes);
                    Ok(())
                }
                None => Err(missing()),
            }
        };
        self.dir.rename(from, to, taken, self.path(from), renamed)
    }

    fn delete(&mut self, name: &PageName) -> Result<(), PagesError> {
        let removed = match self.files.remove(name.as_str()) {
            Some(_) => Ok(()),
            None => Err(missing()),
        };
        self.dir.delete(name, self.path(name), removed)
    }
}

fn reason(name: &str) -> &'static str {
    match PageName::new(name) {
        Err(PagesError::InvalidName { name: n, reason }) => {
            assert_eq!(n, name);
            reason
        }
        other => panic!("expected {name:?} to be refused, got {other:?}"),
    }
}

#[test]
fn rejects_path_traversal_and_absolute_and_hidden_and_malformed_names() {
    let rejected = [
        "../evil.sql",
        "a/b.sql",
        "/abs.sql",
        "..\\x.sql",
        "",
        ".",
        "..",
        ".sql",
        ".hidden.sql",
        "foo.txt",
    ];
    for name in rejected {
        assert!(PageName::new(name).is_err(), "expected {name:?} to be rejected");
    }
}

#[test]
fn each_rule_has_its_reason() {
    assert_eq!(reason(""), "must not be empty");
    assert_eq!(reason(&"a".repeat(256)), "must not be longer than 255 bytes");
    assert_eq!(reason("a\0.sql"), "must not contain '/', '\\', or a NUL byte");
    assert_eq!(reason(".."), "must not be \".\" or \"..\"");
    assert_eq!(reason(".sql"), "must not start with '.'");
    assert_eq!(reason("foo.SQL"), "must end with \".sql\"");
    assert!(matches!(
        PageName::checked("C:foo.sql", false),
        Err(PagesError::InvalidName { reason: "is not a valid single path component", .. })
    ));
    assert_eq!(PageName::checked("C:foo.sql", true).unwrap().as_str(), "C:foo.sql");
    assert!(PageName::checked("foo.txt", true).is_err());
}

#[test]
fn rejects_a_very_long_name() {
    let long = format!("{}.sql", "a".repeat(300));
    assert!(PageName::new(&long).is_err());
    let longest = format!("{}.sql", "a".repeat(251));
    assert!(PageName::new(&longest).is_ok());
}

#[test]
fn accepts_well_formed_names() {
    for name in ["queries.sql", "a_b-c1.sql", "Upper.sql"] {
        assert!(PageName::new(name).is_ok(), "expected {name:?} to be accepted");
    }
}

#[test]
fn every_accepted_name_resolves_directly_under_the_dir_root() {
    let dir = PagesDir::at(PathBuf::from("/some/pages/root"));
    for name in ["queries.sql", "a_b-c1.sql", "Upper.sql"] {
        let page = PageName::new(name).unwrap();
        let located = dir.path_of(&page);
        let path = located.segments.iter().fold(located.base.clone(), |p, s| p.join(s));
        assert_eq!(
            path.parent(),
            Some(dir.root().as_path()),
            "path_of({name:?}) must resolve directly under the dir root, got {}",
            path.display()
        );
    }
}

#[test]
fn stem_strips_the_sql_suffix() {
    let page = PageName::new("queries.sql").unwrap();
    assert_eq!(page.stem(), "queries");
}

#[test]
fn save_then_load_round_trips_and_list_reflects_it() {
    let mut disk = Disk::new();
    let name = PageName::new("a.sql").unwrap();

    disk.save(&name, "SELECT 1;").expect("save should succeed");
    assert_eq!(disk.load(&name).expect("load should succeed"), "SELECT 1;");
    assert_eq!(disk.list().expect("list should succeed"), vec![name]);
}

#[test]
fn list_on_a_fresh_directory_is_empty() {
    assert_eq!(Disk::new().list().expect("list should succeed"), Vec::new());
}

#[test]
fn list_ignores_non_sql_and_hidden_files() {
    let mut disk = Disk::new();
    disk.files.insert("notes.txt".to_string(), b"irrelevant".to_vec());
    disk.files.insert(".hidden.sql".to_string(), b"irrelevant".to_vec());
    let name = PageName::new("real.sql").unwrap();
    disk.save(&name, "SELECT 1;").unwrap();

    assert_eq!(disk.list().expect("list should succeed"), vec![name]);
}

#[test]
fn a_list_is_in_the_order_of_the_bytes() {
    let mut disk = Disk::new();
    for name in ["b.sql", "a.sql", "B.sql", "é.sql", "ab.sql", "a b.sql", "z.sql"] {
        disk.save(&PageName::new(name).unwrap(), "").unwrap();
    }
    let listed: Vec<String> =
        disk.list().unwrap().iter().map(|n| n.as_str().to_string()).collect();
    let mut expected = listed.clone();
    expected.sort();
    assert_eq!(listed, expected);
    assert_eq!(listed[0], "B.sql");
    assert_eq!(listed[6], "é.sql");
}

#[test]
fn a_directory_that_cannot_be_listed_is_an_error() {
    let dir = PagesDir::at(());
    assert_eq!(
        dir.list("/pages".to_string(), Err("denied".to_string())),
        Err(PagesError::Read { path: "/pages".to_string(), cause: "denied".to_string() })
    );
}

#[test]
fn load_of_a_missing_page_is_not_found() {
    let disk = Disk::new();
    let name = PageName::new("missing.sql").unwrap();
    let err = disk.load(&name).expect_err("missing page must error");
    assert!(matches!(err, PagesError::NotFound(n) if n == "missing.sql"));
}

#[test]
fn a_failure_other_than_a_missing_file_names_the_path() {
    let dir = PagesDir::at(());
    let name = PageName::new("a.sql").unwrap();
    let denied = || FileFailure { not_found: false, cause: "denied".to_string() };
    let expected = PagesError::Read { path: "p".to_string(), cause: "denied".to_string() };
    assert_eq!(dir.load(&name, "p".to_string(), Err(denied())), Err(expected.clone()));
    assert_eq!(dir.delete(&name, "p".to_string(), Err(denied())), Err(expected.clone()));
    assert_eq!(
        dir.rename(&name, &name, false, "p".to_string(), Err(denied())),
        Err(expected)
    );
}

#[test]
fn a_failed_save_names_what_it_failed_on() {
    let dir = PagesDir::at(());
    let cases = [
        (Stage::MakeDirectory, "d"),
        (Stage::OpenTemporary, "t"),
        (Stage::WriteTemporary, "t"),
        (Stage::Rename, "p"),
    ];
    for (stage, path) in cases {
        let failed = Some((stage, "full".to_string()));
        let r = dir.save("d".to_string(), "t".to_string(), "p".to_string(), failed);
        assert_eq!(
            r,
            Err(PagesError::Write { path: path.to_string(), cause: "full".to_string() })
        );
    }
}

#[test]
fn rename_refuses_to_clobber_an_existing_destination() {
    let mut disk = Disk::new();
    let from = PageName::new("from.sql").unwrap();
    let to = PageName::new("to.sql").unwrap();
    disk.save(&from, "one").unwrap();
    disk.save(&to, "two").unwrap();

    let err = disk.rename(&from, &to).expect_err("must refuse to clobber");
    assert!(matches!(err, PagesError::AlreadyExists(n) if n == "to.sql"));
    assert_eq!(disk.load(&from).unwrap(), "one", "source must be untouched");
    assert_eq!(disk.load(&to).unwrap(), "two", "destination must be untouched");
}

#[test]
fn rename_moves_the_file_when_the_destination_is_free() {
    let mut disk = Disk::new();
    let from = PageName::new("from.sql").unwrap();
    let to = PageName::new("to.sql").unwrap();
    disk.save(&from, "content").unwrap();

    disk.rename(&from, &to).expect("rename should succeed");

    assert!(!disk.has(&from));
    assert_eq!(disk.load(&to).unwrap(), "content");
}

#[test]
fn delete_removes_the_file() {
    let mut disk = Disk::new();
    let name = PageName::new("gone.sql").unwrap();
    disk.save(&name, "content").unwrap();

    disk.delete(&name).expect("delete should succeed");

    assert!(!disk.has(&name));
    assert_eq!(disk.delete(&name), Err(PagesError::NotFound("gone.sql".to_string())));
}

#[test]
fn save_then_load_is_byte_identical_for_various_contents() {
    let cases = [
        "no trailing newline",
        "trailing newline\n",
        "all\r\ncrlf\r\nlines\r\n",
        "mixed\r\ncrlf\nand lf\r\nlines\n",
        "",
        "emoji 🦀 and non-ascii café naïve\n",
    ];
    let mut disk = Disk::new();
    for (i, content) in cases.iter().enumerate() {
        let name = PageName::new(&format!("case{i}.sql")).unwrap();
        disk.save(&name, content).expect("save should succeed");
        let loaded = disk.load(&name).expect("load should succeed");
        assert_eq!(&loaded, content, "byte-exact round trip failed for case {i}");
    }
}

#[test]
fn load_of_non_utf8_bytes_returns_not_utf8_not_a_panic() {
    let mut disk = Disk::new();
    disk.files.insert("bad.sql".to_string(), vec![0xff, 0xfe, 0xfd]);
    let name = PageName::new("bad.sql").unwrap();

    let err = disk.load(&name).expect_err("non-utf8 content must error, not panic");
    assert_eq!(err, PagesError::NotUtf8 { path: "/pages/bad.sql".to_string() });
}

#[test]
fn every_error_of_a_page_says_what_is_wrong() {
    let s = |text: &str| text.to_string();
    let errors = [
        PagesError::Path(ConfigError::NoDataDir),
        PagesError::InvalidName { name: s("a\"b"), reason: "is odd" },
        PagesError::AlreadyExists(s("a.sql")),
        PagesError::NotFound(s("a.sql")),
        PagesError::NotUtf8 { path: s("/p") },
        PagesError::Read { path: s("/p"), cause: s("c") },
        PagesError::Write { path: s("/p"), cause: s("c") },
    ];
    let said: Vec<String> = errors.iter().map(|e| e.message()).collect();
    assert_eq!(
        said,
        vec![
            "could not determine a data directory for this platform",
            "invalid page name \"a\\\"b\": is odd",
            "a page named \"a.sql\" already exists",
            "no page named \"a.sql\"",
            "/p is not valid UTF-8",
            "failed to read /p",
            "failed to write /p",
        ]
    );
}

#[test]
fn one_component_is_one_name_and_all_of_the_text() {
    let name = |s: &str| PathPart::Normal(s.to_string());
    assert!(is_one_component(&vec![name("a.sql")], "a.sql"));
    assert!(!is_one_component(&vec![], ""));
    assert!(!is_one_component(&vec![PathPart::Other], "."));
    assert!(!is_one_component(&vec![name("a")], "a/"));
    assert!(!is_one_component(&vec![name("a"), name("b")], "a/b"));
    assert!(!is_one_component(&vec![PathPart::Other, name("foo.sql")], "C:foo.sql"));
}
