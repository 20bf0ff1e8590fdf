//! The page tabs.
use ratwarren::config::ConfigError;
use ratwarren::editor::{EditorCommand, Motion, Position, TextBuffer};
use ratwarren::pages::sidecar::{self, Sidecar, SidecarPage, MAX_RESTORED_PAGES, SIDECAR_VERSION};
use ratwarren::pages::tabs::{restorable, RenameStep, SaveStep};
use ratwarren::pages::{PageName, PageTabs, PagesError, SaveOutcome};
use std::collections::BTreeMap;

/// What the disk holds, by file name.
type Disk = BTreeMap<String, String>;

fn name(s: &str) -> PageName {
    PageName::new(s).unwrap()
}

fn disk(files: &[(&str, &str)]) -> Disk {
    files.iter().map(|(n, t)| (n.to_string(), t.to_string())).collect()
}

fn load(disk: &Disk, name: &PageName) -> Result<String, PagesError> {
    disk.get(name.as_str())
        .cloned()
        .ok_or(PagesError::NotFound(name.as_str().to_string()))
}

fn entry(file: &str, line: usize, col: usize) -> SidecarPage {
    SidecarPage { file: file.to_string(), line, col }
}

fn remembered(active: usize, open: Vec<SidecarPage>) -> Sidecar {
    Sidecar { version: SIDECAR_VERSION, active, open }
}

fn restore_in(disk: &Disk, sidecar: Option<Sidecar>) -> PageTabs {
    let mut found = restorable(&sidecar::load(sidecar));
    for candidate in &mut found {
        candidate.text = disk.get(candidate.name.as_str()).cloned();
    }
    PageTabs::restore(Some(found))
}

fn open(tabs: &mut PageTabs, disk: &Disk, name: &PageName) -> Result<(), PagesError> {
    if tabs.open(name)? {
        tabs.opened(name, load(disk, name))?;
    }
    Ok(())
}

fn write(tabs: &mut PageTabs, disk: &mut Disk, step: SaveStep) -> Result<SaveOutcome, PagesError> {
    match step {
        SaveStep::NeedsName => Ok(SaveOutcome::NeedsName),
        SaveStep::Write { name, text } => {
            disk.insert(name.as_str().to_string(), text.clone());
            tabs.finish_save(name, text, Ok(()))
        }
    }
}

fn save_active(tabs: &mut PageTabs, disk: &mut Disk) -> Result<SaveOutcome, PagesError> {
    let step = tabs.save_active()?;
    write(tabs, disk, step)
}

fn save_active_as(
    tabs: &mut PageTabs,
    disk: &mut Disk,
    name: &PageName,
) -> Result<SaveOutcome, PagesError> {
    let step = tabs.save_active_as(name, disk.contains_key(name.as_str()))?;
    write(tabs, disk, step)
}

fn rename_active(tabs: &mut PageTabs, disk: &mut Disk, to: &PageName) -> Result<(), PagesError> {
    match tabs.rename_active(to, disk.contains_key(to.as_str()))? {
        RenameStep::Save(step) => write(tabs, disk, step).map(|_| ()),
        RenameStep::Rename { from } => {
            let text = disk.remove(from.as_str()).unwrap();
            disk.insert(to.as_str().to_string(), text);
            tabs.finish_rename(to, Ok(()))
        }
    }
}

fn names(tabs: &PageTabs) -> Vec<Option<String>> {
    tabs.tabs().iter().map(|p| p.name().map(|n| n.as_str().to_string())).collect()
}

fn is_no_data_dir(e: &PagesError) -> bool {
    matches!(e, PagesError::Path(ConfigError::NoDataDir))
}

#[test]
fn detached_has_exactly_one_non_dirty_scratch_page() {
    let tabs = PageTabs::detached();
    assert_eq!(tabs.tabs().len(), 1);
    assert_eq!(tabs.active_index(), 0);
    assert!(tabs.active().name().is_none());
    assert!(!tabs.active().is_dirty());
}

#[test]
fn restore_in_with_no_sidecar_file_is_one_non_dirty_scratch_page() {
    let tabs = restore_in(&disk(&[]), None);

    assert_eq!(tabs.tabs().len(), 1);
    assert_eq!(tabs.active_index(), 0);
    assert!(tabs.active().name().is_none());
    assert!(!tabs.active().is_dirty());
}

#[test]
fn restore_without_a_directory_is_detached() {
    let mut tabs = PageTabs::restore(None);
    assert_eq!(names(&tabs), vec![None]);
    assert!(is_no_data_dir(&tabs.open(&name("a.sql")).unwrap_err()));
}

#[test]
fn restore_in_drops_an_entry_naming_a_nonexistent_file_but_restores_siblings() {
    let disk = disk(&[("exists.sql", "SELECT 1;")]);
    let sidecar = remembered(0, vec![entry("missing.sql", 0, 0), entry("exists.sql", 0, 0)]);

    let tabs = restore_in(&disk, Some(sidecar));

    assert_eq!(tabs.tabs().len(), 1);
    assert_eq!(tabs.tabs()[0].name(), Some(&name("exists.sql")));
}

#[test]
fn restore_in_drops_an_entry_with_an_invalid_page_name() {
    let disk = disk(&[("exists.sql", "SELECT 1;")]);
    let sidecar = remembered(0, vec![entry("../evil.sql", 0, 0), entry("exists.sql", 0, 0)]);

    let tabs = restore_in(&disk, Some(sidecar));

    assert_eq!(tabs.tabs().len(), 1);
    assert_eq!(tabs.tabs()[0].name(), Some(&name("exists.sql")));
}

#[test]
fn restore_in_collapses_duplicate_file_entries_to_one_page_keeping_the_first() {
    let disk = disk(&[("a.sql", "SELECT 1;")]);
    let sidecar = remembered(0, vec![entry("a.sql", 0, 1), entry("a.sql", 0, 5)]);

    let tabs = restore_in(&disk, Some(sidecar));

    assert_eq!(tabs.tabs().len(), 1);
    assert_eq!(
        tabs.tabs()[0].editor().buffer().cursor(),
        Position { line: 0, col: 1 },
        "the first of the duplicate entries must win"
    );
}

#[test]
fn restore_in_caps_the_number_of_restored_pages_at_max_restored_pages() {
    let count = MAX_RESTORED_PAGES + 5;
    let mut disk = Disk::new();
    let mut open = vec![];
    for i in 0..count {
        let file = format!("p{i}.sql");
        disk.insert(file.clone(), "SELECT 1;".to_string());
        open.push(entry(&file, 0, 0));
    }

    let tabs = restore_in(&disk, Some(remembered(0, open)));

    assert_eq!(tabs.tabs().len(), MAX_RESTORED_PAGES);
}

#[test]
fn restore_in_falls_back_active_to_0_when_the_active_entry_was_dropped() {
    let disk = disk(&[("a.sql", "SELECT 1;"), ("b.sql", "SELECT 2;")]);
    let sidecar = remembered(
        0,
        vec![entry("../evil.sql", 0, 0), entry("a.sql", 0, 0), entry("b.sql", 0, 0)],
    );

    let tabs = restore_in(&disk, Some(sidecar));

    assert_eq!(tabs.active_index(), 0);
}

#[test]
fn the_active_entry_stays_active_when_others_are_dropped() {
    let disk = disk(&[("a.sql", "SELECT 1;"), ("b.sql", "SELECT 2;")]);
    let sidecar = remembered(
        2,
        vec![entry("../evil.sql", 0, 0), entry("a.sql", 0, 0), entry("b.sql", 9, 9)],
    );

    let tabs = restore_in(&disk, Some(sidecar));

    assert_eq!(tabs.active().name(), Some(&name("b.sql")));
    assert_eq!(tabs.editor().buffer().cursor(), Position { line: 0, col: 9 });
}

#[test]
fn restore_in_with_an_unrecognised_sidecar_version_degrades_to_one_scratch_page() {
    let disk = disk(&[("a.sql", "SELECT 1;")]);
    let sidecar = Sidecar { version: 999, active: 0, open: vec![entry("a.sql", 0, 0)] };

    let tabs = restore_in(&disk, Some(sidecar));

    assert_eq!(tabs.tabs().len(), 1);
    assert!(tabs.active().name().is_none());
}

#[test]
fn load_of_an_unrecognised_version_parses_as_is_version_rejection_is_the_callers_job() {
    let loaded = sidecar::load(Some(Sidecar { version: 999, active: 0, open: vec![] }));
    assert_eq!(loaded.version, 999);
    assert_eq!(loaded.active, 0);
    assert!(loaded.open.is_empty());
}

#[test]
fn what_cannot_be_read_is_nothing_remembered() {
    for s in [sidecar::load(None), Sidecar::empty()] {
        assert_eq!(s.version, SIDECAR_VERSION);
        assert_eq!(s.active, 0);
        assert!(s.open.is_empty());
    }
    assert_eq!(sidecar::file_name("a"), "a-af63dc4c8601.tabs.toml");
}

#[test]
fn persist_sidecar_then_restore_in_preserves_order_active_and_cursor() {
    let disk = disk(&[("a.sql", "line1\nline2\nline3\n"), ("b.sql", "select 1;\n")]);
    let mut tabs = restore_in(&disk, None);
    open(&mut tabs, &disk, &name("a.sql")).unwrap();
    open(&mut tabs, &disk, &name("b.sql")).unwrap();
    tabs.select(0);
    assert!(tabs.active().name().is_none(), "test setup: index 0 is the scratch page");
    tabs.close_active(true).expect("closing the clean scratch page must succeed");
    assert_eq!(names(&tabs), vec![Some("a.sql".to_string()), Some("b.sql".to_string())]);

    tabs.select(0);
    tabs.editor_mut().buffer_mut().move_to(Position { line: 1, col: 2 }, Motion::Move);
    tabs.select(1);

    let sidecar = tabs.persist_sidecar().expect("there is a directory");

    let restored = restore_in(&disk, Some(sidecar));
    assert_eq!(names(&restored), vec![Some("a.sql".to_string()), Some("b.sql".to_string())]);
    assert_eq!(restored.active_index(), 1, "b.sql was active when persisted");
    assert_eq!(
        restored.tabs()[0].editor().buffer().cursor(),
        Position { line: 1, col: 2 }
    );
}

#[test]
fn scratch_pages_are_not_remembered_and_do_not_shift_the_active_one() {
    let disk = disk(&[("a.sql", "1"), ("b.sql", "2")]);
    let mut tabs = restore_in(&disk, None);
    open(&mut tabs, &disk, &name("a.sql")).unwrap();
    tabs.new_scratch();
    open(&mut tabs, &disk, &name("b.sql")).unwrap();
    let sidecar = tabs.persist_sidecar().unwrap();
    assert_eq!((sidecar.open.len(), sidecar.active), (2, 1));
    assert_eq!(sidecar.open[1].file, "b.sql");
    assert!(PageTabs::detached().persist_sidecar().is_none());
}

#[test]
fn opening_an_already_open_page_focuses_it_instead_of_duplicating() {
    let disk = disk(&[("a.sql", "SELECT 1;"), ("b.sql", "SELECT 2;")]);
    let mut tabs = restore_in(&disk, None);
    open(&mut tabs, &disk, &name("a.sql")).unwrap();
    open(&mut tabs, &disk, &name("b.sql")).unwrap();
    assert_eq!(tabs.tabs().len(), 3, "test setup: scratch + a + b");

    tabs.select(0);
    open(&mut tabs, &disk, &name("a.sql")).unwrap();

    assert_eq!(tabs.tabs().len(), 3, "opening an already-open page must not duplicate it");
    assert_eq!(tabs.active().name(), Some(&name("a.sql")));
}

#[test]
fn a_page_that_cannot_be_read_is_not_opened() {
    let mut tabs = restore_in(&disk(&[]), None);
    assert_eq!(
        open(&mut tabs, &disk(&[]), &name("a.sql")),
        Err(PagesError::NotFound("a.sql".to_string()))
    );
    assert_eq!(names(&tabs), vec![None]);
}

#[test]
fn close_active_on_the_only_page_leaves_a_fresh_scratch_page() {
    let mut tabs = PageTabs::detached();
    tabs.editor_mut().buffer_mut().insert_str("some text");
    assert!(tabs.active().is_dirty(), "test setup: page must be dirty");

    let closed = tabs.close_active(true).expect("close should succeed");

    assert!(closed);
    assert_eq!(tabs.tabs().len(), 1);
    assert!(tabs.active().name().is_none());
    assert!(!tabs.active().is_dirty(), "the replacement page must be a fresh scratch page");
}

#[test]
fn close_active_without_force_refuses_on_a_dirty_page_and_removes_nothing() {
    let mut tabs = PageTabs::detached();
    tabs.editor_mut().buffer_mut().insert_str("dirty");

    let result = tabs.close_active(false).expect("close should not error");

    assert!(!result, "close_active(false) on a dirty page must return Ok(false)");
    assert_eq!(tabs.tabs().len(), 1, "nothing should have been removed");
    assert!(tabs.active().is_dirty(), "the dirty page must still be there, untouched");
}

#[test]
fn close_active_with_force_removes_a_dirty_page() {
    let mut tabs = PageTabs::detached();
    tabs.editor_mut().buffer_mut().insert_str("dirty");

    let result = tabs.close_active(true).expect("close should not error");

    assert!(result);
}

#[test]
fn closing_a_page_before_the_active_one_keeps_it_active() {
    let disk = disk(&[("a.sql", "1"), ("b.sql", "2")]);
    let mut tabs = restore_in(&disk, None);
    open(&mut tabs, &disk, &name("a.sql")).unwrap();
    open(&mut tabs, &disk, &name("b.sql")).unwrap();
    tabs.deleted(&name("a.sql"), Ok(())).unwrap();
    assert_eq!(tabs.active().name(), Some(&name("b.sql")));
    tabs.deleted(&name("b.sql"), Ok(())).unwrap();
    assert_eq!((names(&tabs), tabs.active_index()), (vec![None], 0));
    assert_eq!(
        tabs.deleted(&name("c.sql"), Err(PagesError::NotFound("c.sql".to_string()))),
        Err(PagesError::NotFound("c.sql".to_string()))
    );
}

#[test]
fn a_named_page_edited_back_to_its_saved_text_is_not_dirty() {
    let disk = disk(&[("a.sql", "SELECT 1;")]);
    let mut tabs = restore_in(&disk, None);
    open(&mut tabs, &disk, &name("a.sql")).unwrap();
    assert!(!tabs.active().is_dirty(), "freshly opened must not be dirty");

    tabs.editor_mut().buffer_mut().insert_str(" more");
    assert!(tabs.active().is_dirty(), "test setup: edit must dirty it");

    for _ in 0..5 {
        tabs.command(EditorCommand::DeleteBackward);
    }

    assert_eq!(tabs.active().editor().buffer().text(), "SELECT 1;");
    assert!(!tabs.active().is_dirty());
}

#[test]
fn save_active_on_a_scratch_page_needs_a_name_and_writes_nothing() {
    let mut disk = disk(&[]);
    let mut tabs = restore_in(&disk, None);
    tabs.editor_mut().buffer_mut().insert_str("SELECT 1;");

    let outcome = save_active(&mut tabs, &mut disk).expect("must not error");

    assert!(matches!(outcome, SaveOutcome::NeedsName));
    assert!(disk.is_empty(), "save_active on a scratch page must not write anything");
}

#[test]
fn rename_active_onto_an_existing_name_fails_and_leaves_both_files_intact() {
    let mut disk = disk(&[("a.sql", "one"), ("b.sql", "two")]);
    let before = disk.clone();
    let mut tabs = restore_in(&disk, None);
    open(&mut tabs, &disk, &name("a.sql")).unwrap();

    let err = rename_active(&mut tabs, &mut disk, &name("b.sql"))
        .expect_err("must refuse to clobber b.sql");

    assert!(matches!(err, PagesError::AlreadyExists(n) if n == "b.sql"));
    assert_eq!(tabs.active().name(), Some(&name("a.sql")));
    assert_eq!(disk, before, "both files must still exist on disk");
}

#[test]
fn a_renamed_page_keeps_its_text_and_a_scratch_page_is_saved_instead() {
    let mut disk = disk(&[("a.sql", "one")]);
    let mut tabs = restore_in(&disk, None);
    open(&mut tabs, &disk, &name("a.sql")).unwrap();
    rename_active(&mut tabs, &mut disk, &name("b.sql")).unwrap();
    assert_eq!(tabs.active().title(), "b");
    assert!(!tabs.active().is_dirty());
    tabs.new_scratch();
    tabs.editor_mut().buffer_mut().insert_str("new");
    rename_active(&mut tabs, &mut disk, &name("c.sql")).unwrap();
    assert_eq!(disk.get("c.sql").map(String::as_str), Some("new"));
    assert!(!disk.contains_key("a.sql"));
}

#[test]
fn save_active_as_onto_an_existing_different_name_is_refused_and_the_original_is_untouched() {
    let mut disk = disk(&[("a.sql", "one"), ("b.sql", "two")]);
    let mut tabs = restore_in(&disk, None);
    open(&mut tabs, &disk, &name("a.sql")).unwrap();
    tabs.editor_mut().buffer_mut().insert_str(" edited");

    let err = save_active_as(&mut tabs, &mut disk, &name("b.sql"))
        .expect_err("must refuse to clobber b.sql");

    assert!(matches!(err, PagesError::AlreadyExists(n) if n == "b.sql"));
    assert_eq!(tabs.active().name(), Some(&name("a.sql")));
    assert_eq!(disk["b.sql"], "two", "b.sql's on-disk content must be untouched");
}

#[test]
fn save_active_as_onto_its_own_current_name_succeeds_as_an_ordinary_overwrite() {
    let mut disk = disk(&[("a.sql", "one")]);
    let mut tabs = restore_in(&disk, None);
    open(&mut tabs, &disk, &name("a.sql")).unwrap();
    *tabs.editor_mut().buffer_mut() = TextBuffer::from_text("one edited");

    save_active_as(&mut tabs, &mut disk, &name("a.sql"))
        .expect("re-saving onto the page's own current name must succeed");

    assert_eq!(disk["a.sql"], "one edited");
    assert!(!tabs.active().is_dirty());
}

#[test]
fn a_write_that_failed_leaves_the_page_as_it_was() {
    let mut tabs = restore_in(&disk(&[]), None);
    tabs.editor_mut().buffer_mut().insert_str("x");
    let full = PagesError::Write { path: "a.sql.tmp".to_string(), cause: "full".to_string() };
    assert_eq!(
        tabs.finish_save(name("a.sql"), "x".to_string(), Err(full.clone())),
        Err(full)
    );
    assert!(tabs.active().name().is_none());
    assert!(tabs.active().is_dirty());
}

#[test]
fn opening_the_same_name_twice_in_one_page_tabs_focuses_the_existing_tab() {
    let disk = disk(&[("a.sql", "SELECT 1;")]);
    let mut tabs = restore_in(&disk, None);
    open(&mut tabs, &disk, &name("a.sql")).unwrap();
    tabs.new_scratch();
    assert_eq!(tabs.tabs().len(), 3, "test setup: scratch + a + scratch");

    open(&mut tabs, &disk, &name("a.sql")).unwrap();

    assert_eq!(tabs.tabs().len(), 3);
    assert_eq!(tabs.active().name(), Some(&name("a.sql")));
}

#[test]
fn save_as_from_one_tab_onto_a_name_open_with_unsaved_edits_in_another_tab_is_refused() {
    let mut disk = disk(&[("a.sql", "one"), ("b.sql", "two")]);
    let mut tabs = restore_in(&disk, None);
    open(&mut tabs, &disk, &name("a.sql")).unwrap();
    open(&mut tabs, &disk, &name("b.sql")).unwrap();
    tabs.editor_mut().buffer_mut().insert_str(" unsaved");
    assert!(tabs.active().is_dirty(), "test setup: b.sql must be dirty");
    tabs.select(1);

    let err = save_active_as(&mut tabs, &mut disk, &name("b.sql"))
        .expect_err("save-as onto a name open in another tab must refuse");

    assert!(matches!(err, PagesError::AlreadyExists(n) if n == "b.sql"));
    disk.remove("b.sql");
    assert!(save_active_as(&mut tabs, &mut disk, &name("b.sql")).is_err());
    tabs.select(2);
    assert!(tabs.active().is_dirty(), "b.sql's unsaved edits must be untouched");
}

#[test]
fn crlf_and_missing_trailing_newline_content_round_trips_exactly_through_text_buffer() {
    let cases = ["a\r\nb\r\n", "a\r\nb", "line1\r\nline2\r\nline3\r\n"];
    for (i, content) in cases.iter().enumerate() {
        let file = format!("case{i}.sql");
        let page_name = name(&file);
        let mut disk = disk(&[(&file, content)]);

        let mut tabs = restore_in(&disk, None);
        open(&mut tabs, &disk, &page_name).unwrap();
        assert_eq!(tabs.active().editor().buffer().text(), *content);
        assert!(!tabs.active().is_dirty());

        tabs.editor_mut().buffer_mut().insert_str("x");
        tabs.editor_mut().buffer_mut().delete_backward();
        assert_eq!(tabs.active().editor().buffer().text(), *content);
        save_active(&mut tabs, &mut disk).expect("save should succeed");

        assert_eq!(&disk[&file], content, "byte-exact round trip failed for case {i}");
    }
}

#[test]
fn reloading_discards_the_edits() {
    let mut disk = disk(&[("a.sql", "one")]);
    let mut tabs = restore_in(&disk, None);
    assert_eq!(tabs.reload_active(), Ok(None));
    open(&mut tabs, &disk, &name("a.sql")).unwrap();
    tabs.editor_mut().buffer_mut().insert_str("edited ");
    disk.insert("a.sql".to_string(), "two".to_string());
    let wanted = tabs.reload_active().unwrap().expect("the page has a name");
    let gone = PagesError::NotFound("a.sql".to_string());
    assert_eq!(tabs.reloaded(Err(gone.clone())), Err(gone));
    assert!(tabs.active().is_dirty());
    tabs.reloaded(load(&disk, &wanted)).unwrap();
    assert_eq!(tabs.editor().buffer().text(), "two");
    assert!(!tabs.active().is_dirty());
}

#[test]
fn next_and_prev_go_round() {
    let mut tabs = PageTabs::detached();
    tabs.new_scratch();
    tabs.new_scratch();
    tabs.next();
    assert_eq!(tabs.active_index(), 0);
    tabs.prev();
    assert_eq!(tabs.active_index(), 2);
    tabs.prev();
    assert_eq!(tabs.active_index(), 1);
    tabs.next();
    assert_eq!(tabs.active_index(), 2);
    tabs.select(7);
    assert_eq!(tabs.active_index(), 2);
}

#[test]
fn operations_on_a_detached_page_tabs_report_no_data_dir_not_a_fabricated_not_found() {
    let mut tabs = PageTabs::detached();

    let open_err = tabs.open(&name("a.sql")).expect_err("there is no directory to load from");
    assert!(is_no_data_dir(&open_err), "got {open_err:?}");

    let delete_err = tabs.delete().expect_err("there is no directory to delete from");
    assert!(is_no_data_dir(&delete_err), "got {delete_err:?}");

    tabs.editor_mut().buffer_mut().insert_str("SELECT 1;");
    let save_as_err = tabs
        .save_active_as(&name("a.sql"), true)
        .expect_err("there is no directory to save to");
    assert!(is_no_data_dir(&save_as_err), "got {save_as_err:?}");
    assert!(is_no_data_dir(&tabs.rename_active(&name("a.sql"), false).unwrap_err()));
    assert_eq!(tabs.list_available(Ok(vec![name("a.sql")])), Ok(vec![]));
}

#[test]
fn dirty_pages_are_named_in_order() {
    let disk = disk(&[("a.sql", "1"), ("b.sql", "2")]);
    let mut tabs = restore_in(&disk, None);
    assert!(!tabs.any_dirty());
    open(&mut tabs, &disk, &name("a.sql")).unwrap();
    open(&mut tabs, &disk, &name("b.sql")).unwrap();
    tabs.command(EditorCommand::Insert('x'));
    tabs.select(0);
    tabs.command(EditorCommand::Insert('x'));
    assert!(tabs.any_dirty());
    assert_eq!(tabs.dirty_titles(), vec!["scratch".to_string(), "b".to_string()]);
}
