//! The page tabs of a session: which pages are open, and which of them is active.
use super::sidecar::{Sidecar, SidecarPage};
use super::{PageName, PagesError};
use crate::config::ConfigError;
use crate::editor::buffer::BufferView;
use crate::editor::{EditorState, Motion, Position, TextBuffer};
use crate::text;
use vstd::prelude::*;

verus! {

/// An open page: a saved one under its name, or a scratch page.
#[derive(Debug)]
pub struct Page {
    name: Option<PageName>,
    editor: EditorState,
    // The contents as of the last load or save; `None` for a scratch page that was never saved.
    saved_text: Option<String>,
}

/// A page as a value.
#[verifier::ext_equal]
pub struct PageView {
    pub name: Option<Seq<char>>,
    pub buffer: BufferView,
    pub saved: Option<Seq<char>>,
}

impl View for Page {
    type V = PageView;

    closed spec fn view(&self) -> PageView {
        PageView {
            name: match self.name {
                Some(n) => Some(n@),
                None => None,
            },
            buffer: self.editor@,
            saved: text::opt_view(self.saved_text),
        }
    }
}

impl PageView {
    /// Whether the page holds something that is not saved.
    pub open spec fn dirty(self) -> bool {
        match self.saved {
            Some(saved) => self.buffer.text() != saved,
            None => self.buffer.text().len() > 0,
        }
    }

    /// What the page's tab says.
    pub open spec fn title(self) -> Seq<char> {
        match self.name {
            Some(name) => super::stem_of(name),
            None => "scratch"@,
        }
    }
}

/// An empty page without a name.
pub open spec fn scratch_page() -> PageView {
    PageView { name: None, buffer: crate::editor::buffer::fresh(Seq::empty()), saved: None }
}

/// A page as it was read.
pub open spec fn loaded_page(name: Seq<char>, text: Seq<char>) -> PageView {
    PageView {
        name: Some(name),
        buffer: crate::editor::buffer::fresh(text),
        saved: Some(text),
    }
}

/// The views of pages.
pub open spec fn page_views(pages: Seq<Page>) -> Seq<PageView> {
    Seq::new(pages.len(), |i: int| pages[i]@)
}

/// Page tabs as a value: whether there is a directory to save in, the pages, the active one.
#[verifier::ext_equal]
pub struct TabsView {
    pub has_dir: bool,
    pub pages: Seq<PageView>,
    pub active: int,
}

impl TabsView {
    /// There is always an active page.
    pub open spec fn wf(self) -> bool {
        &&& 0 <= self.active < self.pages.len()
        &&& forall|i: int| 0 <= i < self.pages.len() ==> (#[trigger] self.pages[i]).buffer.wf()
    }

    /// The active page.
    pub open spec fn current(self) -> PageView {
        self.pages[self.active]
    }

    /// Another page in place of the active one.
    pub open spec fn with_current(self, page: PageView) -> TabsView {
        TabsView { pages: self.pages.update(self.active, page), ..self }
    }

    /// A further page, which becomes the active one.
    pub open spec fn with_new(self, page: PageView) -> TabsView {
        TabsView { pages: self.pages.push(page), active: self.pages.len() as int, ..self }
    }

    /// Without the page at `i`; a scratch page comes in place of the last one.
    pub open spec fn without(self, i: int) -> TabsView {
        let rest = self.pages.remove(i);
        if rest.len() == 0 {
            TabsView { pages: seq![scratch_page()], active: 0, ..self }
        } else {
            TabsView {
                pages: rest,
                active: if self.active >= rest.len() {
                    rest.len() - 1
                } else if i < self.active {
                    self.active - 1
                } else {
                    self.active
                },
                ..self
            }
        }
    }

    /// With the page behind the active one active, or the one before it, going round.
    pub open spec fn turned(self, forward: bool) -> TabsView {
        TabsView {
            active: if forward {
                if self.active + 1 < self.pages.len() {
                    self.active + 1
                } else {
                    0
                }
            } else {
                if self.active > 0 {
                    self.active - 1
                } else {
                    self.pages.len() - 1
                }
            },
            ..self
        }
    }

    /// Whether the page at `i` is the first one of that name.
    pub open spec fn first_named(self, name: Seq<char>, i: int) -> bool {
        &&& 0 <= i < self.pages.len()
        &&& self.pages[i].name == Some(name)
        &&& forall|j: int| 0 <= j < i ==> (#[trigger] self.pages[j]).name != Some(name)
    }

    /// Whether a page of that name is open.
    pub open spec fn has(self, name: Seq<char>) -> bool {
        exists|i: int| 0 <= i < self.pages.len() && (#[trigger] self.pages[i]).name == Some(name)
    }

    /// Whether a page of that name is open, other than the active one.
    pub open spec fn has_elsewhere(self, name: Seq<char>) -> bool {
        exists|i: int|
            0 <= i < self.pages.len() && i != self.active && (#[trigger] self.pages[i]).name
                == Some(name)
    }

    /// No two pages have the same name.
    pub open spec fn names_apart(self) -> bool {
        forall|i: int, j: int|
            0 <= i < j < self.pages.len() && (#[trigger] self.pages[i]).name is Some ==> self.pages[i].name
                != (#[trigger] self.pages[j]).name
    }
}

/// Opening, saving under a name that is free, and closing never give two pages one name.
pub proof fn law_names_stay_apart(v: TabsView, name: Seq<char>, page: PageView, i: int)
    requires
        v.wf(),
        v.names_apart(),
        page.name is None || page.name == Some(name),
    ensures
        !v.has(name) ==> v.with_new(page).names_apart(),
        page.name is None ==> v.with_new(page).names_apart(),
        !v.has_elsewhere(name) ==> v.with_current(page).names_apart(),
        0 <= i < v.pages.len() ==> v.without(i).names_apart(),
{
    let grown = v.with_new(page);
    if !v.has(name) || page.name is None {
        assert forall|a: int, b: int|
            0 <= a < b < grown.pages.len() && (#[trigger] grown.pages[a]).name
                is Some implies grown.pages[a].name != (#[trigger] grown.pages[b]).name by {
            assert(grown.pages[a] == v.pages[a]);
            if b < v.pages.len() {
                assert(grown.pages[b] == v.pages[b]);
            }
        }
    }
    let changed = v.with_current(page);
    if !v.has_elsewhere(name) {
        assert forall|a: int, b: int|
            0 <= a < b < changed.pages.len() && (#[trigger] changed.pages[a]).name
                is Some implies changed.pages[a].name != (#[trigger] changed.pages[b]).name by {
            if a != v.active {
                assert(changed.pages[a] == v.pages[a]);
            }
            if b != v.active {
                assert(changed.pages[b] == v.pages[b]);
            }
        }
    }
    if 0 <= i < v.pages.len() {
        let rest = v.without(i);
        assert forall|a: int, b: int|
            0 <= a < b < rest.pages.len() && (#[trigger] rest.pages[a]).name
                is Some implies rest.pages[a].name != (#[trigger] rest.pages[b]).name by {
            assert(v.pages.remove(i).len() > 0);
            let x = if a < i { a } else { a + 1 };
            let y = if b < i { b } else { b + 1 };
            assert(rest.pages[a] == v.pages[x]);
            assert(rest.pages[b] == v.pages[y]);
        }
    }
}

/// Closing a page leaves every other page as it is; the page that was active stays so, unless it
/// is the one that was closed.
pub proof fn law_closing_keeps_the_others(v: TabsView, i: int)
    requires
        v.wf(),
        0 <= i < v.pages.len(),
    ensures
        v.without(i).wf(),
        v.pages.len() > 1 ==> v.without(i).pages == v.pages.remove(i),
        v.pages.len() == 1 ==> v.without(i).pages == seq![scratch_page()],
        i != v.active ==> v.without(i).current() == v.current(),
{
    lemma_scratch_wf();
    let rest = v.pages.remove(i);
    assert forall|k: int| 0 <= k < rest.len() implies (#[trigger] rest[k]).buffer.wf() by {
        let x = if k < i { k } else { k + 1 };
        assert(rest[k] == v.pages[x]);
    }
}

/// A page that was just saved, read or made holds nothing unsaved.
pub proof fn law_saved_pages_are_clean(v: TabsView, name: Seq<char>, text: Seq<char>)
    requires
        v.wf(),
    ensures
        !(PageView {
            name: Some(name),
            saved: Some(v.current().buffer.text()),
            buffer: v.current().buffer,
        }).dirty(),
        !loaded_page(name, text).dirty(),
        !scratch_page().dirty(),
{
    lemma_scratch_wf();
    crate::text::lemma_lines_of(text);
}

/// A page counts as saved only if nothing would be lost: it holds, character by character, the text
/// that was last read or written, or nothing where it was never saved. Where it differs in a single
/// character, or in length, it is marked as unsaved.
pub proof fn law_unmarked_page_loses_nothing(p: PageView)
    ensures
        p.saved matches Some(saved) ==> (!p.dirty() <==> p.buffer.text().len() == saved.len()
            && forall|i: int|
            0 <= i < saved.len() ==> #[trigger] p.buffer.text()[i] == saved[i]),
        p.saved is None ==> (!p.dirty() <==> p.buffer.text() =~= Seq::<char>::empty()),
{
    if p.saved is Some {
        let saved = p.saved->0;
        if p.buffer.text().len() == saved.len() && forall|i: int|
            0 <= i < saved.len() ==> #[trigger] p.buffer.text()[i] == saved[i] {
            assert(p.buffer.text() =~= saved);
        }
    }
}

/// Closing a page without force never drops a text that differs from the saved one: a page that goes
/// away unasked is among the pages that hold exactly what was saved, and all others are still there.
pub proof fn law_closing_unasked_drops_nothing_unsaved(v: TabsView, after: TabsView, i: int)
    requires
        v.wf(),
        after == (if v.current().dirty() { v } else { v.without(v.active) }),
        0 <= i < v.pages.len(),
    ensures
        (exists|k: int| 0 <= k < after.pages.len() && #[trigger] after.pages[k] == v.pages[i]) || (
        match v.pages[i].saved {
            Some(saved) => v.pages[i].buffer.text() == saved,
            None => v.pages[i].buffer.text().len() == 0,
        }),
{
    if after != v && i != v.active {
        let k = if i < v.active { i } else { i - 1 };
        assert(v.pages.remove(v.active).len() > 0);
        assert(after.pages[k] == v.pages[i]);
    } else if after == v {
        assert(after.pages[i] == v.pages[i]);
    }
}

/// An edit that changes the length of a saved page's text marks the page as unsaved.
pub proof fn law_typing_marks_the_page(p: PageView, after: PageView, from: int, to: int, by: Seq<char>)
    requires
        !p.dirty(),
        0 <= from <= to <= p.buffer.text().len(),
        to - from != by.len(),
        after.saved == p.saved,
        after.buffer.edited(p.buffer, from, to, by),
    ensures
        after.dirty(),
{
    crate::editor::buffer::law_edit_changes_only_its_range(p.buffer, after.buffer, from, to, by);
}

/// Closing the active page goes on with the page behind it, or with the one before it where it was
/// the last.
pub proof fn law_closing_goes_on_with_a_neighbour(v: TabsView)
    requires
        v.wf(),
        v.pages.len() > 1,
    ensures
        v.active + 1 < v.pages.len() ==> v.without(v.active).current() == v.pages[v.active + 1],
        v.active + 1 == v.pages.len() ==> v.without(v.active).current() == v.pages[v.active - 1],
{
}

/// Where each page stands after a further one came, or another one took the active one's place: all
/// other pages stay, in their order, and the new one is active.
pub proof fn law_other_pages_stay(v: TabsView, page: PageView, i: int)
    requires
        v.wf(),
        0 <= i < v.pages.len(),
    ensures
        v.with_new(page).current() == page,
        v.with_new(page).pages.len() == v.pages.len() + 1,
        v.with_new(page).pages[i] == v.pages[i],
        v.with_current(page).current() == page,
        v.with_current(page).active == v.active,
        v.with_current(page).pages.len() == v.pages.len(),
        i != v.active ==> v.with_current(page).pages[i] == v.pages[i],
{
}

/// Pages go round: forward and back are each other's opposite, and each step goes to the neighbour or
/// from one end to the other. No page changes.
pub proof fn law_pages_go_round(v: TabsView)
    requires
        v.wf(),
    ensures
        v.turned(true).turned(false) == v,
        v.turned(false).turned(true) == v,
        v.turned(true).active == (v.active + 1) % (v.pages.len() as int),
        v.turned(true).pages == v.pages,
        v.turned(false).pages == v.pages,
{
    let n = v.pages.len() as int;
    if v.active + 1 < n {
        assert((v.active + 1) % n == v.active + 1) by (nonlinear_arith)
            requires
                0 <= v.active + 1 < n,
        ;
    } else {
        assert(n % n == 0) by (nonlinear_arith)
            requires
                n > 0,
        ;
    }
}

/// How a request to save the active page under a name goes on.
pub open spec fn is_saved_as(
    v: TabsView,
    name: Seq<char>,
    on_disk: bool,
    r: Result<SaveStep, PagesError>,
) -> bool {
    if v.current().name != Some(name) && ((v.has_dir && on_disk) || v.has_elsewhere(name)) {
        r matches Err(PagesError::AlreadyExists(n)) && n@ == name
    } else if v.has_dir {
        r matches Ok(SaveStep::Write { name: n, text }) && n@ == name && text@
            == v.current().buffer.text()
    } else {
        r is Err && is_no_data_dir(r->Err_0)
    }
}

/// How a request to rename the active page goes on.
pub open spec fn is_renamed(
    v: TabsView,
    to: Seq<char>,
    on_disk: bool,
    r: Result<RenameStep, PagesError>,
) -> bool {
    if !v.has_dir {
        r is Err && is_no_data_dir(r->Err_0)
    } else {
        match v.current().name {
            Some(n) => if on_disk {
                r matches Err(PagesError::AlreadyExists(taken)) && taken@ == to
            } else {
                r matches Ok(RenameStep::Rename { from }) && from@ == n
            },
            None => if on_disk || v.has_elsewhere(to) {
                r matches Err(PagesError::AlreadyExists(taken)) && taken@ == to
            } else {
                r matches Ok(RenameStep::Save(SaveStep::Write { name, text })) && name@ == to
                    && text@ == v.current().buffer.text()
            },
        }
    }
}

/// Saving under a name writes all of the page's text to a file of that name, and never to one that is
/// another page's: one that is on disk, or open, and not the page's own. Where the name is free and
/// there is a directory, it is written.
pub proof fn law_saving_overwrites_no_other_page(
    v: TabsView,
    name: Seq<char>,
    on_disk: bool,
    r: Result<SaveStep, PagesError>,
)
    requires
        v.wf(),
        is_saved_as(v, name, on_disk, r),
    ensures
        r matches Ok(step) ==> v.has_dir && (step matches SaveStep::Write { name: n, text } && n@
            == name && text@ == v.current().buffer.text()),
        r is Ok && (on_disk || v.has_elsewhere(name)) ==> v.current().name == Some(name),
        v.has_dir && v.current().name == Some(name) ==> r is Ok,
        v.has_dir && !on_disk && !v.has(name) ==> r is Ok,
{
}

/// Renaming never goes onto a file that exists. A page that has a file is renamed from it, one that has
/// none is saved, with all of its text, under a name that no other page has.
pub proof fn law_renaming_overwrites_nothing(
    v: TabsView,
    to: Seq<char>,
    on_disk: bool,
    r: Result<RenameStep, PagesError>,
)
    requires
        v.wf(),
        is_renamed(v, to, on_disk, r),
    ensures
        on_disk ==> r is Err,
        r matches Ok(RenameStep::Rename { from }) ==> v.current().name == Some(from@),
        r matches Ok(RenameStep::Save(step)) ==> v.current().name is None && !v.has(to) && (
        step matches SaveStep::Write { name, text } && name@ == to && text@
            == v.current().buffer.text()),
        v.has_dir && !on_disk && !v.has(to) ==> r is Ok,
        r is Ok ==> v.has_dir,
{
}

/// The tabs after the active page's text was written, or could not be.
pub open spec fn save_finished(
    before: TabsView,
    name: Seq<char>,
    text: Seq<char>,
    written: Result<(), PagesError>,
    after: TabsView,
    r: Result<SaveOutcome, PagesError>,
) -> bool {
    match written {
        Ok(_) => r == Ok::<SaveOutcome, PagesError>(SaveOutcome::Saved) && after
            == before.with_current(
            PageView { name: Some(name), saved: Some(text), buffer: before.current().buffer },
        ),
        Err(e) => r == Err::<SaveOutcome, PagesError>(e) && after == before,
    }
}

/// The tabs after the active page's file was renamed, or could not be.
pub open spec fn rename_finished(
    before: TabsView,
    to: Seq<char>,
    renamed: Result<(), PagesError>,
    after: TabsView,
    r: Result<(), PagesError>,
) -> bool {
    match renamed {
        Ok(_) => r is Ok && after == before.with_current(
            PageView { name: Some(to), ..before.current() },
        ),
        Err(e) => r == Err::<(), PagesError>(e) && after == before,
    }
}

/// The tabs after a page's file was removed, or could not be.
pub open spec fn delete_finished(
    before: TabsView,
    name: Seq<char>,
    removed: Result<(), PagesError>,
    after: TabsView,
    r: Result<(), PagesError>,
) -> bool {
    match removed {
        Ok(_) => r is Ok && (if before.has(name) {
            exists|i: int| #[trigger] before.first_named(name, i) && after == before.without(i)
        } else {
            after == before
        }),
        Err(e) => r == Err::<(), PagesError>(e) && after == before,
    }
}

/// The tabs after the active page's file was read again, or could not be.
pub open spec fn reload_finished(
    before: TabsView,
    read: Result<String, PagesError>,
    after: TabsView,
    r: Result<(), PagesError>,
) -> bool {
    match read {
        Ok(t) => r is Ok && after == before.with_current(
            PageView {
                name: before.current().name,
                buffer: crate::editor::buffer::fresh(t@),
                saved: Some(t@),
            },
        ),
        Err(e) => r == Err::<(), PagesError>(e) && after == before,
    }
}

/// The tabs after a page's file was read, or could not be.
pub open spec fn open_finished(
    before: TabsView,
    name: Seq<char>,
    read: Result<String, PagesError>,
    after: TabsView,
    r: Result<(), PagesError>,
) -> bool {
    match read {
        Ok(t) => r is Ok && after == before.with_new(loaded_page(name, t@)),
        Err(e) => r == Err::<(), PagesError>(e) && after == before,
    }
}

/// Saving changes no text, and leaves the other pages as they are. Once the text that the page holds
/// was written, the page has the name and nothing unsaved; where it was not written, nothing has
/// changed, and the error is told.
pub proof fn law_a_saved_page_is_clean(
    before: TabsView,
    name: Seq<char>,
    text: Seq<char>,
    written: Result<(), PagesError>,
    after: TabsView,
    r: Result<SaveOutcome, PagesError>,
    i: int,
)
    requires
        before.wf(),
        save_finished(before, name, text, written, after, r),
        0 <= i < before.pages.len(),
    ensures
        after.pages.len() == before.pages.len(),
        after.pages[i].buffer == before.pages[i].buffer,
        i != before.active ==> after.pages[i] == before.pages[i],
        after.active == before.active,
        r is Ok <==> written is Ok,
        r is Ok ==> after.current().name == Some(name),
        r is Ok && text == before.current().buffer.text() ==> !after.current().dirty(),
        r is Ok && text != before.current().buffer.text() ==> after.current().dirty(),
        written matches Err(e) ==> after == before && r == Err::<SaveOutcome, PagesError>(e),
{
}

/// Renaming a page changes its name alone: neither its text nor whether something of it is unsaved.
pub proof fn law_renaming_changes_only_the_name(
    before: TabsView,
    to: Seq<char>,
    renamed: Result<(), PagesError>,
    after: TabsView,
    r: Result<(), PagesError>,
    i: int,
)
    requires
        before.wf(),
        rename_finished(before, to, renamed, after, r),
        0 <= i < before.pages.len(),
    ensures
        after.pages.len() == before.pages.len(),
        after.active == before.active,
        after.pages[i].buffer == before.pages[i].buffer,
        after.pages[i].dirty() == before.pages[i].dirty(),
        i != before.active ==> after.pages[i] == before.pages[i],
        renamed is Ok ==> after.current().name == Some(to),
        renamed is Err ==> after == before,
{
}

/// Deleting a page's file closes the page, where it is open, and no other; pages of another name stay
/// as they are.
pub proof fn law_deleting_closes_only_the_page(
    before: TabsView,
    name: Seq<char>,
    removed: Result<(), PagesError>,
    after: TabsView,
    r: Result<(), PagesError>,
    i: int,
)
    requires
        before.wf(),
        before.names_apart(),
        delete_finished(before, name, removed, after, r),
        0 <= i < before.pages.len(),
    ensures
        removed is Ok ==> !after.has(name),
        removed is Err ==> after == before,
        before.pages[i].name != Some(name) ==> exists|k: int|
            0 <= k < after.pages.len() && #[trigger] after.pages[k] == before.pages[i],
{
    if removed is Ok && before.has(name) {
        let x = choose|x: int| #[trigger] before.first_named(name, x) && after == before.without(x);
        let rest = before.pages.remove(x);
        assert forall|k: int| 0 <= k < after.pages.len() implies (#[trigger] after.pages[k]).name
            != Some(name) by {
            if rest.len() > 0 {
                let y = if k < x { k } else { k + 1 };
                assert(after.pages[k] == before.pages[y]);
                if y < x {
                    assert(before.pages[y].name != before.pages[x].name || before.pages[y].name
                        is None);
                } else {
                    assert(before.pages[x].name != before.pages[y].name);
                }
            }
        }
        if i != x {
            let k = if i < x { i } else { i - 1 };
            assert(rest.len() > 0);
            assert(after.pages[k] == before.pages[i]);
        }
    } else {
        assert(after.pages[i] == before.pages[i]);
    }
}

/// A page that is read, for the first time or again, holds what was read and nothing unsaved, with the
/// cursor at its beginning; where it could not be read, nothing has changed.
pub proof fn law_a_read_page_holds_what_was_read(
    before: TabsView,
    name: Seq<char>,
    read: Result<String, PagesError>,
    opened: TabsView,
    reloaded: TabsView,
    first: Result<(), PagesError>,
    second: Result<(), PagesError>,
)
    requires
        before.wf(),
        open_finished(before, name, read, opened, first),
        reload_finished(before, read, reloaded, second),
    ensures
        read matches Ok(t) ==> {
            &&& opened.current().buffer.text() == t@
            &&& opened.current().buffer.cursor_index() == 0
            &&& opened.current().name == Some(name)
            &&& !opened.current().dirty()
            &&& opened.pages.len() == before.pages.len() + 1
            &&& reloaded.current().buffer.text() == t@
            &&& reloaded.current().buffer.cursor_index() == 0
            &&& reloaded.current().name == before.current().name
            &&& !reloaded.current().dirty()
            &&& reloaded.pages.len() == before.pages.len()
        },
        read is Err ==> opened == before && reloaded == before && first is Err && second is Err,
{
    if read is Ok {
        crate::editor::buffer::law_a_fresh_buffer_holds_its_text(read->Ok_0@);
    }
}

/// The unsaved pages are named by their titles, each once, in the order of the tabs.
pub proof fn law_unsaved_pages_are_named(pages: Seq<PageView>, i: int, n: int)
    requires
        0 <= i < n <= pages.len(),
    ensures
        dirty_titles_of(pages, n).len() <= n,
        pages[i].dirty() ==> {
            &&& dirty_titles_of(pages, i).len() < dirty_titles_of(pages, n).len()
            &&& dirty_titles_of(pages, n)[dirty_titles_of(pages, i).len() as int]
                == pages[i].title()
        },
        !pages[i].dirty() ==> dirty_titles_of(pages, i + 1).len() == dirty_titles_of(pages, i).len(),
        dirty_titles_of(pages, n).len() == 0 <==> forall|k: int|
            0 <= k < n ==> !(#[trigger] pages[k]).dirty(),
    decreases n,
{
    lemma_titles(pages, n);
    if i < n - 1 {
        law_unsaved_pages_are_named(pages, i, n - 1);
    }
}

proof fn lemma_titles(pages: Seq<PageView>, n: int)
    requires
        0 <= n <= pages.len(),
    ensures
        dirty_titles_of(pages, n).len() <= n,
        dirty_titles_of(pages, n).len() == 0 <==> forall|k: int|
            0 <= k < n ==> !(#[trigger] pages[k]).dirty(),
    decreases n,
{
    if n > 0 {
        lemma_titles(pages, n - 1);
    }
}

/// A page's tab says what the page's file is called without `.sql`, or `scratch` for a page without
/// a file.
pub proof fn law_title_is_the_file_without_its_suffix(p: PageView)
    requires
        p.name matches Some(name) ==> super::name_fault(name) is None,
    ensures
        p.name matches Some(name) ==> name == p.title() + ".sql"@,
        p.name is None ==> p.title() == "scratch"@,
{
    if p.name is Some {
        super::law_accepted_name_is_a_file_name(p.name->0);
    }
}

/// Of what is remembered, each accepted name is tried once, at its first place: no name comes twice,
/// each candidate is a remembered page whose name did not occur before, and no accepted name is
/// missing.
pub proof fn law_each_remembered_name_is_tried_once(
    open: Seq<super::sidecar::EntryView>,
    names: Seq<Option<Seq<char>>>,
    active: int,
    n: int,
)
    requires
        names.len() == open.len(),
        0 <= n <= open.len(),
    ensures
        ({
            let c = candidates_of(open, names, active, n);
            &&& forall|a: int, b: int|
                0 <= a < b < c.len() ==> (#[trigger] c[a]).name != (#[trigger] c[b]).name
            &&& forall|a: int| 0 <= a < c.len() ==> stems_from(open, names, active, n, #[trigger] c[a])
            &&& forall|i: int|
                0 <= i < n && (#[trigger] names[i]) is Some ==> seen(c, names[i]->0)
        }),
    decreases n,
{
    if n > 0 {
        law_each_remembered_name_is_tried_once(open, names, active, n - 1);
        let before = candidates_of(open, names, active, n - 1);
        let c = candidates_of(open, names, active, n);
        assert forall|a: int| 0 <= a < c.len() implies stems_from(
            open,
            names,
            active,
            n,
            #[trigger] c[a],
        ) by {
            if a < before.len() {
                assert(c[a] == before[a]);
                assert(stems_from(open, names, active, n - 1, before[a]));
                let i = choose|i: int|
                    0 <= i < n - 1 && #[trigger] names[i] == Some(before[a].name) && before[a].line
                        == open[i].line && before[a].col == open[i].col && before[a].was_active == (
                    i == active) && before[a].text is None && forall|j: int|
                        0 <= j < i ==> #[trigger] names[j] != Some(before[a].name);
                assert(names[i] == Some(c[a].name));
            } else {
                assert(names[n - 1] == Some(c[a].name));
                assert forall|j: int| 0 <= j < n - 1 implies #[trigger] names[j] != Some(
                    c[a].name,
                ) by {
                    if names[j] is Some {
                        assert(seen(before, names[j]->0));
                    }
                }
            }
        }
        assert forall|i: int| 0 <= i < n && (#[trigger] names[i]) is Some implies seen(
            c,
            names[i]->0,
        ) by {
            if i < n - 1 || c == before {
                assert(seen(before, names[i]->0));
                let k = choose|k: int|
                    0 <= k < before.len() && (#[trigger] before[k]).name == names[i]->0;
                assert(c[k].name == names[i]->0);
            } else {
                assert(c[before.len() as int].name == names[i]->0);
            }
        }
    }
}

/// Whether a candidate is that of the first of the `n` remembered pages with its name.
pub open spec fn stems_from(
    open: Seq<super::sidecar::EntryView>,
    names: Seq<Option<Seq<char>>>,
    active: int,
    n: int,
    c: CandidateView,
) -> bool {
    exists|i: int|
        0 <= i < n && #[trigger] names[i] == Some(c.name) && c.line == open[i].line && c.col
            == open[i].col && c.was_active == (i == active) && c.text is None && forall|j: int|
            0 <= j < i ==> #[trigger] names[j] != Some(c.name)
}

/// Of the candidates that could be read, the first sixty-four come back, in their order, and no
/// others; nothing of a page is unsaved then.
pub proof fn law_readable_pages_come_back(c: Seq<CandidateView>, i: int, n: int)
    requires
        0 <= i < n <= c.len(),
    ensures
        restored_pages(c, i).len() <= restored_pages(c, n).len() <= 64,
        restored_pages(c, n).len() <= n,
        c[i].text is None ==> restored_pages(c, i + 1) == restored_pages(c, i),
        c[i].text is Some && restored_pages(c, i).len() < 64 ==> {
            let k = restored_pages(c, i).len() as int;
            &&& k < restored_pages(c, n).len()
            &&& restored_pages(c, n)[k].name == Some(c[i].name)
            &&& restored_pages(c, n)[k].buffer.text() == c[i].text->0
            &&& !restored_pages(c, n)[k].dirty()
        },
    decreases n,
{
    lemma_restored_at_most(c, n);
    if i < n - 1 {
        law_readable_pages_come_back(c, i, n - 1);
    } else {
        lemma_restored_at_most(c, i);
    }
    if c[i].text is Some {
        let text = c[i].text->0;
        let page = restored_page(c[i], text);
        text::lemma_lines_of(text);
        assert(page.buffer.text() == text);
    }
}

proof fn lemma_restored_at_most(c: Seq<CandidateView>, n: int)
    requires
        0 <= n <= c.len(),
    ensures
        restored_pages(c, n).len() <= 64,
        restored_pages(c, n).len() <= n,
    decreases n,
{
    if n > 0 {
        lemma_restored_at_most(c, n - 1);
    }
}

/// The page that comes back active is the one that was, where it comes back; else the first.
pub proof fn law_active_page_stays_active(c: Seq<CandidateView>, i: int)
    requires
        0 <= i < c.len(),
        c[i].was_active,
        forall|j: int| 0 <= j < c.len() && j != i ==> !(#[trigger] c[j]).was_active,
    ensures
        c[i].text is Some && restored_pages(c, i).len() < 64 ==> restored(c).current().name == Some(
            c[i].name,
        ),
        c[i].text is None ==> restored(c).active == 0,
        restored(c).wf(),
{
    let n = c.len() as int;
    lemma_active_where(c, i, n);
    law_readable_pages_come_back(c, i, n);
    lemma_restored_wf(c, n);
    lemma_scratch_wf();
}

proof fn lemma_active_where(c: Seq<CandidateView>, i: int, n: int)
    requires
        0 <= i < c.len(),
        0 <= n <= c.len(),
        forall|j: int| 0 <= j < c.len() && j != i ==> !(#[trigger] c[j]).was_active,
        c[i].was_active,
    ensures
        restored_active(c, n) == (if i < n && c[i].text is Some && restored_pages(c, i).len() < 64 {
            restored_pages(c, i).len() as int
        } else {
            0
        }),
        0 <= restored_active(c, n),
        restored_active(c, n) < restored_pages(c, n).len() || restored_active(c, n) == 0,
    decreases n,
{
    if n > 0 {
        lemma_active_where(c, i, n - 1);
        if i < n {
            law_readable_pages_come_back(c, i, n);
        }
        lemma_restored_at_most(c, n - 1);
        if n - 1 == i && c[i].text is Some && restored_pages(c, i).len() < 64 {
            assert(restored_pages(c, n).len() == restored_pages(c, i).len() + 1);
        }
    }
}

proof fn lemma_restored_wf(c: Seq<CandidateView>, n: int)
    requires
        0 <= n <= c.len(),
    ensures
        forall|k: int|
            0 <= k < restored_pages(c, n).len() ==> (#[trigger] restored_pages(
                c,
                n,
            )[k]).buffer.wf(),
    decreases n,
{
    if n > 0 {
        lemma_restored_wf(c, n - 1);
        if c[n - 1].text is Some {
            let text = c[n - 1].text->0;
            text::lemma_lines_of(text);
        }
    }
}

proof fn lemma_scratch_wf()
    ensures
        scratch_page().buffer.wf(),
        scratch_page().buffer.text().len() == 0,
{
    lemma_loaded_wf(Seq::empty(), Seq::empty());
}

proof fn lemma_loaded_wf(name: Seq<char>, text: Seq<char>)
    ensures
        loaded_page(name, text).buffer.wf(),
        loaded_page(name, text).buffer.text() == text,
{
    text::lemma_lines_of(text);
}

impl Page {
    /// An empty page without a name.
    pub fn scratch() -> (p: Page)
        ensures
            p@ == scratch_page(),
    {
        Page { name: None, editor: EditorState::new(), saved_text: None }
    }

    /// A page as it was read.
    fn loaded(name: PageName, text: String) -> (p: Page)
        ensures
            p@ == loaded_page(name@, text@),
    {
        let buffer: TextBuffer = TextBuffer::from_text(text.as_str());
        Page {
            name: Some(name),
            editor: EditorState::with_buffer(buffer),
            saved_text: Some(text),
        }
    }

    pub fn name(&self) -> (n: Option<&PageName>)
        ensures
            match n {
                Some(name) => self@.name == Some(name@),
                None => self@.name is None,
            },
    {
        match &self.name {
            Some(n) => Some(n),
            None => None,
        }
    }

    /// What the page's tab says.
    pub fn title(&self) -> (t: &str)
        ensures
            t@ == self@.title(),
    {
        match &self.name {
            Some(name) => name.stem(),
            None => "scratch",
        }
    }

    pub fn editor(&self) -> (e: &EditorState)
        ensures
            e@ == self@.buffer,
    {
        &self.editor
    }

    pub fn editor_mut(&mut self) -> (e: &mut EditorState)
        ensures
            e@ == old(self)@.buffer,
            final(self)@ == (PageView { buffer: final(e)@, ..old(self)@ }),
    {
        &mut self.editor
    }

    /// Whether the page holds something that is not saved.
    pub fn is_dirty(&self) -> (dirty: bool)
        requires
            self@.buffer.wf(),
        ensures
            dirty == self@.dirty(),
            !dirty ==> match self@.saved {
                Some(saved) => self@.buffer.text() == saved,
                None => self@.buffer.text().len() == 0,
            },
    {
        match &self.saved_text {
            Some(saved) => {
                let now: String = self.editor.buffer().text();
                !text::same_text(now.as_str(), saved.as_str())
            },
            None => !self.editor.buffer().is_empty(),
        }
    }

    /// Whether the page has that name.
    fn is_named(&self, name: &PageName) -> (b: bool)
        ensures
            b == (self@.name == Some(name@)),
    {
        match &self.name {
            Some(n) => super::same_name(n, name),
            None => false,
        }
    }
}

/// What became of a request to save.
#[derive(Debug, Clone, Copy, PartialEq, Eq, Structural)]
pub enum SaveOutcome {
    Saved,
    NeedsName,
}

/// How to go on with a request to save.
#[derive(Debug)]
pub enum SaveStep {
    /// Write the text to the page's file, and report to [`PageTabs::finish_save`].
    Write { name: PageName, text: String },
    /// The page has no name yet.
    NeedsName,
}

/// How to go on with a request to rename.
#[derive(Debug)]
pub enum RenameStep {
    /// Rename the file, and report to [`PageTabs::finish_rename`].
    Rename { from: PageName },
    /// The page has no file yet: save it under the new name.
    Save(SaveStep),
}

/// A remembered page that may be opened again: its name, where the cursor stood, whether it was
/// the active one, and what was read of it, if it could be read.
#[derive(Debug)]
pub struct Candidate {
    pub name: PageName,
    pub line: usize,
    pub col: usize,
    pub was_active: bool,
    pub text: Option<String>,
}

/// A candidate as a value.
#[verifier::ext_equal]
pub struct CandidateView {
    pub name: Seq<char>,
    pub line: usize,
    pub col: usize,
    pub was_active: bool,
    pub text: Option<Seq<char>>,
}

impl View for Candidate {
    type V = CandidateView;

    open spec fn view(&self) -> CandidateView {
        CandidateView {
            name: self.name@,
            line: self.line,
            col: self.col,
            was_active: self.was_active,
            text: text::opt_view(self.text),
        }
    }
}

/// The views of candidates.
pub open spec fn candidate_views(c: Seq<Candidate>) -> Seq<CandidateView> {
    Seq::new(c.len(), |i: int| c[i]@)
}

/// Whether a candidate has that name.
pub open spec fn seen(c: Seq<CandidateView>, name: Seq<char>) -> bool {
    exists|i: int| 0 <= i < c.len() && (#[trigger] c[i]).name == name
}

/// The pages to read again, of the first `n` that are remembered: those with a name that is
/// accepted and did not occur before.
pub open spec fn candidates_of(
    open: Seq<super::sidecar::EntryView>,
    names: Seq<Option<Seq<char>>>,
    active: int,
    n: int,
) -> Seq<CandidateView>
    decreases n,
{
    if n <= 0 {
        Seq::empty()
    } else {
        let before = candidates_of(open, names, active, n - 1);
        match names[n - 1] {
            Some(name) => if seen(before, name) {
                before
            } else {
                before.push(
                    CandidateView {
                        name,
                        line: open[n - 1].line,
                        col: open[n - 1].col,
                        was_active: n - 1 == active,
                        text: None,
                    },
                )
            },
            None => before,
        }
    }
}

/// A page as it was read, with the cursor where it stood, or as near as the text allows.
pub open spec fn restored_page(c: CandidateView, text: Seq<char>) -> PageView {
    let b = crate::editor::buffer::fresh(text);
    PageView {
        name: Some(c.name),
        buffer: b.moved(b.clamped(Position { line: c.line, col: c.col }), Motion::Move),
        saved: Some(text),
    }
}

/// The pages that come back of the first `n` candidates: those that could be read, up to the limit.
pub open spec fn restored_pages(c: Seq<CandidateView>, n: int) -> Seq<PageView>
    decreases n,
{
    if n <= 0 {
        Seq::empty()
    } else {
        let before = restored_pages(c, n - 1);
        match c[n - 1].text {
            Some(text) => if before.len() < super::sidecar::MAX_RESTORED_PAGES {
                before.push(restored_page(c[n - 1], text))
            } else {
                before
            },
            None => before,
        }
    }
}

/// Which of the pages that come back is active: the one that was, or the first.
pub open spec fn restored_active(c: Seq<CandidateView>, n: int) -> int
    decreases n,
{
    if n <= 0 {
        0
    } else if c[n - 1].was_active && restored_pages(c, n) != restored_pages(c, n - 1) {
        restored_pages(c, n - 1).len() as int
    } else {
        restored_active(c, n - 1)
    }
}

/// The tabs that come back.
pub open spec fn restored(c: Seq<CandidateView>) -> TabsView {
    let pages = restored_pages(c, c.len() as int);
    TabsView {
        has_dir: true,
        pages: if pages.len() == 0 {
            seq![scratch_page()]
        } else {
            pages
        },
        active: restored_active(c, c.len() as int),
    }
}

/// What is remembered of the first `n` pages: those with a name.
pub open spec fn entries_of(pages: Seq<PageView>, n: int) -> Seq<super::sidecar::EntryView>
    decreases n,
{
    if n <= 0 {
        Seq::empty()
    } else {
        match pages[n - 1].name {
            Some(file) => entries_of(pages, n - 1).push(
                super::sidecar::EntryView {
                    file,
                    line: pages[n - 1].buffer.cursor.line,
                    col: pages[n - 1].buffer.cursor.col,
                },
            ),
            None => entries_of(pages, n - 1),
        }
    }
}

/// The candidates, each with what the disk holds under its name.
pub open spec fn filled(
    c: Seq<CandidateView>,
    disk: spec_fn(Seq<char>) -> Option<Seq<char>>,
) -> Seq<CandidateView> {
    Seq::new(c.len(), |i: int| CandidateView { text: disk(c[i].name), ..c[i] })
}

/// The entries of the named pages come in the order of the pages.
proof fn lemma_entries(pages: Seq<PageView>, i: int, n: int)
    requires
        0 <= i < n <= pages.len(),
        pages[i].name is Some,
    ensures
        entries_of(pages, i).len() < entries_of(pages, n).len(),
        entries_of(pages, n)[entries_of(pages, i).len() as int] == (super::sidecar::EntryView {
            file: pages[i].name->0,
            line: pages[i].buffer.cursor.line,
            col: pages[i].buffer.cursor.col,
        }),
    decreases n,
{
    if i < n - 1 {
        lemma_entries(pages, i, n - 1);
    }
}

/// The entries are no more than the pages, and each is that of a named page.
proof fn lemma_entry_page(pages: Seq<PageView>, n: int, k: int) -> (i: int)
    requires
        0 <= n <= pages.len(),
        0 <= k < entries_of(pages, n).len(),
    ensures
        0 <= i < n,
        pages[i].name is Some,
        entries_of(pages, i).len() == k,
    decreases n,
{
    if pages[n - 1].name is Some && k == entries_of(pages, n - 1).len() {
        n - 1
    } else {
        lemma_entry_page(pages, n - 1, k)
    }
}

/// Where no name occurs twice and each is accepted, each remembered page is a candidate.
proof fn lemma_candidates_of_distinct(
    open: Seq<super::sidecar::EntryView>,
    names: Seq<Option<Seq<char>>>,
    active: int,
    n: int,
)
    requires
        names.len() == open.len(),
        0 <= n <= open.len(),
        forall|i: int| 0 <= i < open.len() ==> #[trigger] names[i] == Some(open[i].file),
        forall|i: int, j: int|
            0 <= i < j < open.len() ==> (#[trigger] open[i]).file != (#[trigger] open[j]).file,
    ensures
        candidates_of(open, names, active, n).len() == n,
        forall|k: int|
            0 <= k < n ==> #[trigger] candidates_of(open, names, active, n)[k] == (CandidateView {
                name: open[k].file,
                line: open[k].line,
                col: open[k].col,
                was_active: k == active,
                text: None,
            }),
    decreases n,
{
    if n > 0 {
        lemma_candidates_of_distinct(open, names, active, n - 1);
        let before = candidates_of(open, names, active, n - 1);
        assert(names[n - 1] == Some(open[n - 1].file));
        assert(!seen(before, open[n - 1].file)) by {
            if seen(before, open[n - 1].file) {
                let k = choose|k: int|
                    0 <= k < before.len() && (#[trigger] before[k]).name == open[n - 1].file;
                assert(open[k].file != open[n - 1].file);
            }
        }
    }
}

/// Where each candidate could be read, and they are no more than the limit, each comes back.
proof fn lemma_all_restored(c: Seq<CandidateView>, active: int, n: int)
    requires
        0 <= n <= c.len(),
        c.len() <= super::sidecar::MAX_RESTORED_PAGES,
        forall|i: int| 0 <= i < c.len() ==> (#[trigger] c[i]).text is Some,
        forall|i: int| 0 <= i < c.len() ==> (#[trigger] c[i]).was_active == (i == active),
    ensures
        restored_pages(c, n).len() == n,
        forall|k: int|
            0 <= k < n ==> #[trigger] restored_pages(c, n)[k] == restored_page(c[k], c[k].text->0),
        restored_active(c, n) == (if 0 <= active < n {
            active
        } else {
            0
        }),
    decreases n,
{
    if n > 0 {
        lemma_all_restored(c, active, n - 1);
        assert(c[n - 1].text is Some);
        assert(restored_pages(c, n).len() != restored_pages(c, n - 1).len());
    }
}

/// What is remembered of the pages brings them back: each named page, in the same order, with what
/// the disk holds of it; the cursor where it stood, if the page was saved as it was; and the page
/// that was active, if it had a name.
pub proof fn law_remembered_pages_come_back(
    v: TabsView,
    disk: spec_fn(Seq<char>) -> Option<Seq<char>>,
    i: int,
)
    requires
        v.wf(),
        v.names_apart(),
        entries_of(v.pages, v.pages.len() as int).len() <= super::sidecar::MAX_RESTORED_PAGES,
        forall|k: int|
            0 <= k < v.pages.len() && (#[trigger] v.pages[k]).name is Some ==> disk(
                v.pages[k].name->0,
            ) is Some,
        0 <= i < v.pages.len(),
        v.pages[i].name is Some,
    ensures
        ({
            let open = entries_of(v.pages, v.pages.len() as int);
            let active = entries_of(v.pages, v.active).len() as int;
            let names = Seq::new(open.len(), |k: int| Some(open[k].file));
            let c = candidates_of(open, names, active, open.len() as int);
            let back = restored(filled(c, disk));
            let k = entries_of(v.pages, i).len() as int;
            let text = disk(v.pages[i].name->0)->0;
            &&& back.pages.len() == open.len()
            &&& 0 <= k < back.pages.len()
            &&& back.pages[k].name == v.pages[i].name
            &&& back.pages[k].saved == Some(text)
            &&& back.pages[k].buffer.text() == text
            &&& text == v.pages[i].buffer.text() ==> back.pages[k].buffer.cursor
                == v.pages[i].buffer.cursor
            &&& v.active == i ==> back.active == k
        }),
{
    let n = v.pages.len() as int;
    let open = entries_of(v.pages, n);
    let active = entries_of(v.pages, v.active).len() as int;
    let names = Seq::new(open.len(), |k: int| Some(open[k].file));
    let k = entries_of(v.pages, i).len() as int;
    lemma_entries(v.pages, i, n);
    assert forall|a: int, b: int| 0 <= a < b < open.len() implies (#[trigger] open[a]).file != (
    #[trigger] open[b]).file by {
        let x = lemma_entry_page(v.pages, n, a);
        let y = lemma_entry_page(v.pages, n, b);
        lemma_entries(v.pages, x, n);
        lemma_entries(v.pages, y, n);
        if y < x {
            lemma_entries(v.pages, y, x);
        }
        assert(v.pages[x].name != v.pages[y].name);
    }
    lemma_candidates_of_distinct(open, names, active, open.len() as int);
    let c = candidates_of(open, names, active, open.len() as int);
    let f = filled(c, disk);
    assert forall|a: int| 0 <= a < f.len() implies (#[trigger] f[a]).text is Some by {
        let x = lemma_entry_page(v.pages, n, a);
        lemma_entries(v.pages, x, n);
        assert(c[a].name == open[a].file);
        assert(v.pages[x].name is Some);
    }
    assert forall|a: int| 0 <= a < f.len() implies (#[trigger] f[a]).was_active == (a
        == active) by {
        assert(c[a].was_active == (a == active));
    }
    lemma_all_restored(f, active, f.len() as int);
    assert(f[k] == (CandidateView { text: disk(c[k].name), ..c[k] }));
    let text = disk(v.pages[i].name->0)->0;
    lemma_loaded_wf(Seq::empty(), text);
    if text == v.pages[i].buffer.text() {
        text::lemma_lines_of(text);
        text::lemma_lines_unique(v.pages[i].buffer.lines, text::lines_of(text));
        assert(v.pages[i].buffer.valid(v.pages[i].buffer.cursor));
    }
}

/// The titles of the pages among the first `n` that hold something unsaved.
pub open spec fn dirty_titles_of(pages: Seq<PageView>, n: int) -> Seq<Seq<char>>
    decreases n,
{
    if n <= 0 {
        Seq::empty()
    } else if pages[n - 1].dirty() {
        dirty_titles_of(pages, n - 1).push(pages[n - 1].title())
    } else {
        dirty_titles_of(pages, n - 1)
    }
}

/// The error where there is no directory to save in.
pub open spec fn is_no_data_dir(e: PagesError) -> bool {
    e matches PagesError::Path(c) && c is NoDataDir
}

fn no_data_dir() -> (e: PagesError)
    ensures
        is_no_data_dir(e),
{
    PagesError::Path(ConfigError::NoDataDir)
}

/// The pages to read again. `names` holds what the rules make of each remembered file's name.
pub fn candidates(sidecar: &Sidecar, names: &Vec<Option<PageName>>) -> (c: Vec<Candidate>)
    requires
        names@.len() == sidecar.open@.len(),
    ensures
        candidate_views(c@) == (if sidecar.version == super::sidecar::SIDECAR_VERSION {
            candidates_of(
                super::sidecar::entry_views(sidecar.open@),
                super::opt_name_views(names@),
                sidecar.active as int,
                names@.len() as int,
            )
        } else {
            Seq::empty()
        }),
{
    let mut found: Vec<Candidate> = Vec::new();
    let ghost open = super::sidecar::entry_views(sidecar.open@);
    let ghost given = super::opt_name_views(names@);
    if sidecar.version != super::sidecar::SIDECAR_VERSION {
        proof {
            assert(candidate_views(found@) =~= Seq::empty());
        }
        return found;
    }
    for i in 0..names.len()
        invariant
            names@.len() == sidecar.open@.len(),
            open == super::sidecar::entry_views(sidecar.open@),
            given == super::opt_name_views(names@),
            candidate_views(found@) == candidates_of(open, given, sidecar.active as int, i as int),
    {
        match &names[i] {
            Some(name) => {
                let mut known = false;
                for k in 0..found.len()
                    invariant
                        known == exists|j: int|
                            0 <= j < k && (#[trigger] candidate_views(found@)[j]).name == name@,
                {
                    if super::same_name(&found[k].name, name) {
                        known = true;
                        proof {
                            assert(candidate_views(found@)[k as int].name == name@);
                        }
                    }
                }
                proof {
                    assert(given[i as int] == Some(name@));
                    assert(known == seen(candidate_views(found@), name@));
                }
                if !known {
                    let ghost before = found@;
                    let c = Candidate {
                        name: name.clone(),
                        line: sidecar.open[i].line,
                        col: sidecar.open[i].col,
                        was_active: i == sidecar.active,
                        text: None,
                    };
                    found.push(c);
                    proof {
                        assert(candidate_views(found@) =~= candidate_views(before).push(c@));
                    }
                }
            },
            None => {
                proof {
                    assert(given[i as int] is None);
                }
            },
        }
    }
    found
}

/// The pages to read again.
pub fn restorable(sidecar: &Sidecar) -> (c: Vec<Candidate>)
    ensures
        sidecar.version != super::sidecar::SIDECAR_VERSION ==> c@.len() == 0,
        sidecar.version == super::sidecar::SIDECAR_VERSION ==> exists|
            names: Seq<Option<Seq<char>>>,
        | #[trigger]
            super::accepts(
                super::sidecar::files_of(super::sidecar::entry_views(sidecar.open@)),
                names,
            ) && candidate_views(c@) == candidates_of(
                super::sidecar::entry_views(sidecar.open@),
                names,
                sidecar.active as int,
                names.len() as int,
            ),
{
    let mut files: Vec<String> = Vec::new();
    for i in 0..sidecar.open.len()
        invariant
            text::views(files@) == super::sidecar::files_of(
                super::sidecar::entry_views(sidecar.open@),
            ).take(i as int),
    {
        let ghost before = files@;
        files.push(sidecar.open[i].file.clone());
        proof {
            assert(text::views(files@) =~= text::views(before).push(sidecar.open@[i as int].file@));
        }
    }
    proof {
        let all = super::sidecar::files_of(super::sidecar::entry_views(sidecar.open@));
        assert(all.take(all.len() as int) =~= all);
        assert(text::views(files@).len() == sidecar.open@.len());
    }
    let names: Vec<Option<PageName>> = super::accept_names(&files);
    let c: Vec<Candidate> = candidates(sidecar, &names);
    proof {
        assert(candidate_views(c@).len() == c@.len());
    }
    c
}

/// Several pages that are open at once. There is always at least one, and one is active.
#[derive(Debug)]
pub struct PageTabs {
    has_dir: bool,
    pages: Vec<Page>,
    active: usize,
}

impl View for PageTabs {
    type V = TabsView;

    closed spec fn view(&self) -> TabsView {
        TabsView {
            has_dir: self.has_dir,
            pages: page_views(self.pages@),
            active: self.active as int,
        }
    }
}

impl PageTabs {
    /// One scratch page, and no directory to save in.
    pub fn detached() -> (t: PageTabs)
        ensures
            t@.wf(),
            t@ == (TabsView { has_dir: false, pages: seq![scratch_page()], active: 0 }),
    {
        let mut pages: Vec<Page> = Vec::new();
        pages.push(Page::scratch());
        proof {
            lemma_scratch_wf();
            assert(page_views(pages@) =~= seq![scratch_page()]);
        }
        PageTabs { has_dir: false, pages, active: 0 }
    }

    /// The tabs of a session that opens: what comes back of `found`, or a scratch page where there
    /// is no directory to save in.
    pub fn restore(found: Option<Vec<Candidate>>) -> (t: PageTabs)
        ensures
            t@.wf(),
            t@ == (match found {
                Some(c) => restored(candidate_views(c@)),
                None => TabsView { has_dir: false, pages: seq![scratch_page()], active: 0 },
            }),
    {
        match found {
            Some(c) => PageTabs::restore_in(c),
            None => PageTabs::detached(),
        }
    }

    /// The tabs that come back of the remembered pages.
    pub fn restore_in(found: Vec<Candidate>) -> (t: PageTabs)
        ensures
            t@.wf(),
            t@ == restored(candidate_views(found@)),
    {
        let ghost c = candidate_views(found@);
        let mut pages: Vec<Page> = Vec::new();
        let mut active: usize = 0;
        for i in 0..found.len()
            invariant
                c == candidate_views(found@),
                page_views(pages@) == restored_pages(c, i as int),
                active == restored_active(c, i as int),
                pages@.len() == 0 ==> active == 0,
                pages@.len() > 0 ==> active < pages@.len(),
                forall|k: int| 0 <= k < pages@.len() ==> (#[trigger] pages@[k])@.buffer.wf(),
        {
            let ghost before = pages@;
            proof {
                assert(c[i as int] == found@[i as int]@);
            }
            match &found[i].text {
                Some(text) => {
                    if pages.len() < super::sidecar::MAX_RESTORED_PAGES {
                        let mut buffer: TextBuffer = TextBuffer::from_text(text.as_str());
                        buffer.move_to(
                            Position { line: found[i].line, col: found[i].col },
                            Motion::Move,
                        );
                        let page = Page {
                            name: Some(found[i].name.clone()),
                            editor: EditorState::with_buffer(buffer),
                            saved_text: Some(text.clone()),
                        };
                        if found[i].was_active {
                            active = pages.len();
                        }
                        proof {
                            assert(page@ == restored_page(c[i as int], text@));
                        }
                        pages.push(page);
                        proof {
                            assert(page_views(pages@) =~= page_views(before).push(page@));
                            assert(page_views(pages@).len() != page_views(before).len());
                        }
                    }
                },
                None => {},
            }
        }
        if pages.len() == 0 {
            pages.push(Page::scratch());
            proof {
                lemma_scratch_wf();
                assert(page_views(pages@) =~= seq![scratch_page()]);
            }
        }
        let t = PageTabs { has_dir: true, pages, active };
        proof {
            assert(t@ =~= restored(c));
        }
        t
    }

    /// The active page.
    pub fn active(&self) -> (p: &Page)
        requires
            self@.wf(),
        ensures
            p@ == self@.current(),
    {
        &self.pages[self.active]
    }

    pub fn active_mut(&mut self) -> (p: &mut Page)
        requires
            old(self)@.wf(),
        ensures
            p@ == old(self)@.current(),
            final(self)@ == old(self)@.with_current(final(p)@),
    {
        &mut self.pages[self.active]
    }

    pub fn active_index(&self) -> (i: usize)
        ensures
            i == self@.active,
    {
        self.active
    }

    pub fn tabs(&self) -> (pages: &[Page])
        ensures
            page_views(pages@) == self@.pages,
    {
        self.pages.as_slice()
    }

    pub fn editor(&self) -> (e: &EditorState)
        requires
            self@.wf(),
        ensures
            e@ == self@.current().buffer,
    {
        self.active().editor()
    }

    pub fn editor_mut(&mut self) -> (e: &mut EditorState)
        requires
            old(self)@.wf(),
        ensures
            e@ == old(self)@.current().buffer,
            final(self)@ == old(self)@.with_current(
                PageView { buffer: final(e)@, ..old(self)@.current() },
            ),
    {
        self.active_mut().editor_mut()
    }

    /// Puts a command to the active page's editor.
    pub fn command(&mut self, cmd: crate::editor::EditorCommand)
        requires
            old(self)@.wf(),
        ensures
            final(self)@.wf(),
            final(self)@ == old(self)@.with_current(
                PageView { buffer: final(self)@.current().buffer, ..old(self)@.current() },
            ),
            crate::editor::state::commanded(
                old(self)@.current().buffer,
                cmd,
                final(self)@.current().buffer,
            ),
    {
        let ghost before = self@;
        self.editor_mut().command(cmd);
        proof {
            let b = self@.pages[before.active].buffer;
            assert(self@.pages =~= before.pages.update(
                before.active,
                PageView { buffer: b, ..before.current() },
            ));
        }
    }

    /// Where the first page of that name stands.
    fn find(&self, name: &PageName) -> (found: Option<usize>)
        ensures
            match found {
                Some(i) => self@.first_named(name@, i as int),
                None => !self@.has(name@),
            },
    {
        for i in 0..self.pages.len()
            invariant
                forall|j: int| 0 <= j < i ==> (#[trigger] self@.pages[j]).name != Some(name@),
        {
            proof {
                assert(self@.pages[i as int] == self.pages@[i as int]@);
            }
            if self.pages[i].is_named(name) {
                return Some(i);
            }
        }
        None
    }

    fn push_page(&mut self, page: Page)
        requires
            old(self)@.wf(),
            page@.buffer.wf(),
        ensures
            final(self)@.wf(),
            final(self)@ == old(self)@.with_new(page@),
    {
        let ghost before = self@;
        let n: usize = self.pages.len();
        self.pages.push(page);
        self.active = n;
        proof {
            assert(self@.pages =~= before.pages.push(page@));
        }
    }

    /// Goes to the page of that name, if it is open; else says that it has to be read, and handed
    /// to [`PageTabs::opened`].
    pub fn open(&mut self, name: &PageName) -> (r: Result<bool, PagesError>)
        requires
            old(self)@.wf(),
        ensures
            final(self)@.wf(),
            match r {
                Ok(false) => final(self)@.first_named(name@, final(self)@.active) && final(self)@
                    == (TabsView { active: final(self)@.active, ..old(self)@ }),
                Ok(true) => !old(self)@.has(name@) && old(self)@.has_dir && final(self)@ == old(
                    self,
                )@,
                Err(e) => !old(self)@.has(name@) && !old(self)@.has_dir && is_no_data_dir(e)
                    && final(self)@ == old(self)@,
            },
            r == Ok::<bool, PagesError>(false) <==> old(self)@.has(name@),
    {
        match self.find(name) {
            Some(i) => {
                proof {
                    assert(self@.pages[i as int].name == Some(name@));
                }
                self.active = i;
                Ok(false)
            },
            None => if self.has_dir {
                Ok(true)
            } else {
                Err(no_data_dir())
            },
        }
    }

    /// Opens a page that was read.
    pub fn opened(&mut self, name: &PageName, read: Result<String, PagesError>) -> (r: Result<
        (),
        PagesError,
    >)
        requires
            old(self)@.wf(),
        ensures
            final(self)@.wf(),
            open_finished(old(self)@, name@, read, final(self)@, r),
    {
        match read {
            Ok(t) => {
                proof {
                    lemma_loaded_wf(name@, t@);
                }
                self.push_page(Page::loaded(name.clone(), t));
                Ok(())
            },
            Err(e) => Err(e),
        }
    }

    /// Opens a scratch page.
    pub fn new_scratch(&mut self)
        requires
            old(self)@.wf(),
        ensures
            final(self)@.wf(),
            final(self)@ == old(self)@.with_new(scratch_page()),
    {
        proof {
            lemma_scratch_wf();
        }
        self.push_page(Page::scratch());
    }

    /// Goes to the page behind, from the last one to the first.
    pub fn next(&mut self)
        requires
            old(self)@.wf(),
        ensures
            final(self)@.wf(),
            final(self)@ == old(self)@.turned(true),
    {
        let last: usize = self.pages.len() - 1;
        if self.active < last {
            self.active = self.active + 1;
        } else {
            self.active = 0;
        }
    }

    /// Goes to the page before, from the first one to the last.
    pub fn prev(&mut self)
        requires
            old(self)@.wf(),
        ensures
            final(self)@.wf(),
            final(self)@ == old(self)@.turned(false),
    {
        if self.active > 0 {
            self.active = self.active - 1;
        } else {
            self.active = self.pages.len() - 1;
        }
    }

    /// Goes to the page at `index`, if there is one.
    pub fn select(&mut self, index: usize)
        requires
            old(self)@.wf(),
        ensures
            final(self)@.wf(),
            final(self)@ == (if index < old(self)@.pages.len() {
                TabsView { active: index as int, ..old(self)@ }
            } else {
                old(self)@
            }),
    {
        if index < self.pages.len() {
            self.active = index;
        }
    }

    /// How to save the active page under the name it has.
    pub fn save_active(&self) -> (r: Result<SaveStep, PagesError>)
        requires
            self@.wf(),
        ensures
            match self@.current().name {
                None => r matches Ok(SaveStep::NeedsName),
                Some(n) => if self@.has_dir {
                    r matches Ok(SaveStep::Write { name, text }) && name@ == n && text@
                        == self@.current().buffer.text()
                } else {
                    r is Err && is_no_data_dir(r->Err_0)
                },
            },
    {
        match self.active().name() {
            None => Ok(SaveStep::NeedsName),
            Some(name) => self.write_active(name),
        }
    }

    /// How to save the active page under `name`. `on_disk` says whether there is a file of that
    /// name. A name that is taken, by a file or by another page, is refused, but for the name that
    /// the page has.
    pub fn save_active_as(&self, name: &PageName, on_disk: bool) -> (r: Result<
        SaveStep,
        PagesError,
    >)
        requires
            self@.wf(),
        ensures
            is_saved_as(self@, name@, on_disk, r),
    {
        if !self.active().is_named(name) && self.name_is_taken(name, on_disk) {
            return Err(PagesError::AlreadyExists(name.as_str().to_owned()));
        }
        self.write_active(name)
    }

    fn name_is_taken(&self, name: &PageName, on_disk: bool) -> (taken: bool)
        ensures
            taken == ((self@.has_dir && on_disk) || self@.has_elsewhere(name@)),
    {
        let mut elsewhere = false;
        for i in 0..self.pages.len()
            invariant
                elsewhere == exists|j: int|
                    0 <= j < i && j != self@.active && (#[trigger] self@.pages[j]).name == Some(
                        name@,
                    ),
        {
            proof {
                assert(self@.pages[i as int] == self.pages@[i as int]@);
            }
            if i != self.active && self.pages[i].is_named(name) {
                elsewhere = true;
            }
        }
        (self.has_dir && on_disk) || elsewhere
    }

    fn write_active(&self, name: &PageName) -> (r: Result<SaveStep, PagesError>)
        requires
            self@.wf(),
        ensures
            if self@.has_dir {
                r matches Ok(SaveStep::Write { name: n, text }) && n@ == name@ && text@
                    == self@.current().buffer.text()
            } else {
                r is Err && is_no_data_dir(r->Err_0)
            },
    {
        if !self.has_dir {
            return Err(no_data_dir());
        }
        let text: String = self.active().editor().buffer().text();
        Ok(SaveStep::Write { name: name.clone(), text })
    }

    /// Takes up what became of a write: the active page has that name now, and what was written
    /// is saved.
    pub fn finish_save(
        &mut self,
        name: PageName,
        text: String,
        written: Result<(), PagesError>,
    ) -> (r: Result<SaveOutcome, PagesError>)
        requires
            old(self)@.wf(),
        ensures
            final(self)@.wf(),
            save_finished(old(self)@, name@, text@, written, final(self)@, r),
    {
        match written {
            Ok(_) => {
                let ghost before = self@;
                let page: &mut Page = self.active_mut();
                page.name = Some(name);
                page.saved_text = Some(text);
                proof {
                    assert(self@.pages[before.active].buffer == before.current().buffer);
                }
                Ok(SaveOutcome::Saved)
            },
            Err(e) => Err(e),
        }
    }

    /// How to rename the active page to `to`. `on_disk` says whether there is a file of that name.
    pub fn rename_active(&self, to: &PageName, on_disk: bool) -> (r: Result<
        RenameStep,
        PagesError,
    >)
        requires
            self@.wf(),
        ensures
            is_renamed(self@, to@, on_disk, r),
    {
        if !self.has_dir {
            return Err(no_data_dir());
        }
        match self.active().name() {
            None => match self.save_active_as(to, on_disk) {
                Ok(step) => Ok(RenameStep::Save(step)),
                Err(e) => Err(e),
            },
            Some(from) => match super::check_rename(to, on_disk) {
                Ok(()) => Ok(RenameStep::Rename { from: from.clone() }),
                Err(e) => Err(e),
            },
        }
    }

    /// Takes up what became of a renaming.
    pub fn finish_rename(&mut self, to: &PageName, renamed: Result<(), PagesError>) -> (r: Result<
        (),
        PagesError,
    >)
        requires
            old(self)@.wf(),
        ensures
            final(self)@.wf(),
            rename_finished(old(self)@, to@, renamed, final(self)@, r),
    {
        match renamed {
            Ok(_) => {
                let ghost before = self@;
                let page: &mut Page = self.active_mut();
                page.name = Some(to.clone());
                proof {
                    assert(self@.pages[before.active].buffer == before.current().buffer);
                }
                Ok(())
            },
            Err(e) => Err(e),
        }
    }

    /// Whether a page's file can be deleted at all: there must be a directory.
    pub fn delete(&self) -> (r: Result<(), PagesError>)
        ensures
            r is Ok <==> self@.has_dir,
            r is Err ==> is_no_data_dir(r->Err_0),
    {
        if self.has_dir {
            Ok(())
        } else {
            Err(no_data_dir())
        }
    }

    /// Takes up what became of deleting a page's file: its tab closes.
    pub fn deleted(&mut self, name: &PageName, removed: Result<(), PagesError>) -> (r: Result<
        (),
        PagesError,
    >)
        requires
            old(self)@.wf(),
        ensures
            final(self)@.wf(),
            delete_finished(old(self)@, name@, removed, final(self)@, r),
    {
        match removed {
            Ok(_) => {
                match self.find(name) {
                    Some(i) => {
                        proof {
                            assert(self@.pages[i as int].name == Some(name@));
                        }
                        self.close_at(i);
                    },
                    None => {},
                }
                Ok(())
            },
            Err(e) => Err(e),
        }
    }

    /// Which page has to be read to discard the active page's edits; none for a scratch page.
    pub fn reload_active(&self) -> (r: Result<Option<PageName>, PagesError>)
        requires
            self@.wf(),
        ensures
            match self@.current().name {
                None => r matches Ok(None),
                Some(n) => if self@.has_dir {
                    r matches Ok(Some(name)) && name@ == n
                } else {
                    r is Err && is_no_data_dir(r->Err_0)
                },
            },
    {
        match self.active().name() {
            None => Ok(None),
            Some(name) => if self.has_dir {
                Ok(Some(name.clone()))
            } else {
                Err(no_data_dir())
            },
        }
    }

    /// Puts what was read in place of what the active page holds.
    pub fn reloaded(&mut self, read: Result<String, PagesError>) -> (r: Result<(), PagesError>)
        requires
            old(self)@.wf(),
        ensures
            final(self)@.wf(),
            reload_finished(old(self)@, read, final(self)@, r),
    {
        match read {
            Ok(t) => {
                proof {
                    lemma_loaded_wf(Seq::empty(), t@);
                }
                let ghost before = self@;
                let page: &mut Page = self.active_mut();
                page.editor = EditorState::with_buffer(TextBuffer::from_text(t.as_str()));
                page.saved_text = Some(t);
                proof {
                    assert(self@.pages[before.active].saved == Some(t@));
                }
                Ok(())
            },
            Err(e) => Err(e),
        }
    }

    /// Closes the active page, unless it holds something unsaved and `force` is not set: the answer
    /// says whether it was closed.
    pub fn close_active(&mut self, force: bool) -> (r: Result<bool, PagesError>)
        requires
            old(self)@.wf(),
        ensures
            final(self)@.wf(),
            r == Ok::<bool, PagesError>(force || !old(self)@.current().dirty()),
            final(self)@ == (if force || !old(self)@.current().dirty() {
                old(self)@.without(old(self)@.active)
            } else {
                old(self)@
            }),
            !force && final(self)@ != old(self)@ ==> match old(self)@.current().saved {
                Some(saved) => old(self)@.current().buffer.text() == saved,
                None => old(self)@.current().buffer.text().len() == 0,
            },
    {
        if !force && self.active().is_dirty() {
            return Ok(false);
        }
        let active: usize = self.active;
        self.close_at(active);
        Ok(true)
    }

    fn close_at(&mut self, index: usize)
        requires
            old(self)@.wf(),
            index < old(self)@.pages.len(),
        ensures
            final(self)@.wf(),
            final(self)@ == old(self)@.without(index as int),
    {
        let ghost before = self@;
        proof {
            law_closing_keeps_the_others(before, index as int);
        }
        self.pages.remove(index);
        proof {
            assert(page_views(self.pages@) =~= before.pages.remove(index as int));
        }
        if self.pages.len() == 0 {
            self.pages.push(Page::scratch());
            self.active = 0;
            proof {
                assert(page_views(self.pages@) =~= seq![scratch_page()]);
            }
            return ;
        }
        if self.active >= self.pages.len() {
            self.active = self.pages.len() - 1;
        } else if index < self.active {
            self.active = self.active - 1;
        }
    }

    /// Whether a page holds something unsaved.
    pub fn any_dirty(&self) -> (b: bool)
        requires
            self@.wf(),
        ensures
            b == exists|i: int| 0 <= i < self@.pages.len() && (#[trigger] self@.pages[i]).dirty(),
    {
        for i in 0..self.pages.len()
            invariant
                self@.wf(),
                forall|j: int| 0 <= j < i ==> !(#[trigger] self@.pages[j]).dirty(),
        {
            proof {
                assert(self@.pages[i as int] == self.pages@[i as int]@);
            }
            if self.pages[i].is_dirty() {
                return true;
            }
        }
        false
    }

    /// The titles of the pages that hold something unsaved, in order.
    pub fn dirty_titles(&self) -> (titles: Vec<String>)
        requires
            self@.wf(),
        ensures
            text::views(titles@) == dirty_titles_of(self@.pages, self@.pages.len() as int),
    {
        let mut titles: Vec<String> = Vec::new();
        for i in 0..self.pages.len()
            invariant
                self@.wf(),
                text::views(titles@) == dirty_titles_of(self@.pages, i as int),
        {
            proof {
                assert(self@.pages[i as int] == self.pages@[i as int]@);
            }
            if self.pages[i].is_dirty() {
                let ghost before = titles@;
                titles.push(self.pages[i].title().to_owned());
                proof {
                    assert(text::views(titles@) =~= text::views(before).push(
                        self@.pages[i as int].title(),
                    ));
                }
            }
        }
        titles
    }

    /// The pages that can be opened: what the directory lists, or nothing where there is none.
    pub fn list_available(&self, listed: Result<Vec<PageName>, PagesError>) -> (r: Result<
        Vec<PageName>,
        PagesError,
    >)
        ensures
            if self@.has_dir {
                r == listed
            } else {
                r matches Ok(names) && names@.len() == 0
            },
    {
        if self.has_dir {
            listed
        } else {
            Ok(Vec::new())
        }
    }

    /// What to remember of the pages: the named ones, their cursors, and which of them is active.
    /// Nothing, where there is no directory.
    pub fn persist_sidecar(&self) -> (r: Option<Sidecar>)
        requires
            self@.wf(),
        ensures
            r is Some <==> self@.has_dir,
            r matches Some(s) ==> {
                &&& s.version == super::sidecar::SIDECAR_VERSION
                &&& super::sidecar::entry_views(s.open@) == entries_of(
                    self@.pages,
                    self@.pages.len() as int,
                )
                &&& s.active == entries_of(self@.pages, self@.active).len()
            },
    {
        if !self.has_dir {
            return None;
        }
        let mut open: Vec<SidecarPage> = Vec::new();
        let mut active: usize = 0;
        for i in 0..self.pages.len()
            invariant
                self@.wf(),
                super::sidecar::entry_views(open@) == entries_of(self@.pages, i as int),
                i <= self@.active ==> active == open@.len(),
                i > self@.active ==> active == entries_of(self@.pages, self@.active).len(),
        {
            proof {
                assert(self@.pages[i as int] == self.pages@[i as int]@);
                assert(super::sidecar::entry_views(open@).len() == open@.len());
            }
            match self.pages[i].name() {
                Some(name) => {
                    let cursor: Position = self.pages[i].editor().buffer().cursor();
                    let entry = SidecarPage {
                        file: name.as_str().to_owned(),
                        line: cursor.line,
                        col: cursor.col,
                    };
                    let ghost before = open@;
                    open.push(entry);
                    proof {
                        assert(super::sidecar::entry_views(open@)
                            =~= super::sidecar::entry_views(before).push(entry@));
                    }
                    if i < self.active {
                        active = open.len();
                    }
                },
                None => {},
            }
        }
        Some(Sidecar { version: super::sidecar::SIDECAR_VERSION, active, open })
    }
}

} // verus!
