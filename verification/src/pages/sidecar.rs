//! What is remembered of the open pages between sessions.
use crate::config::paths;
use vstd::prelude::*;

verus! {

pub const SIDECAR_VERSION: u32 = 1;

pub const SIDECAR_SUFFIX: &'static str = ".tabs.toml";

pub const MAX_RESTORED_PAGES: usize = 64;

/// The open pages, in order, and which of them was active.
#[derive(Debug, Clone)]
pub struct Sidecar {
    pub version: u32,
    pub active: usize,
    pub open: Vec<SidecarPage>,
}

/// An open page: its file, and where the cursor stood.
#[derive(Debug, Clone)]
pub struct SidecarPage {
    pub file: String,
    pub line: usize,
    pub col: usize,
}

/// A remembered page as a value.
pub struct EntryView {
    pub file: Seq<char>,
    pub line: usize,
    pub col: usize,
}

impl View for SidecarPage {
    type V = EntryView;

    open spec fn view(&self) -> EntryView {
        EntryView { file: self.file@, line: self.line, col: self.col }
    }
}

/// The views of remembered pages.
pub open spec fn entry_views(open: Seq<SidecarPage>) -> Seq<EntryView> {
    Seq::new(open.len(), |i: int| open[i]@)
}

/// The files of remembered pages.
pub open spec fn files_of(open: Seq<EntryView>) -> Seq<Seq<char>> {
    Seq::new(open.len(), |i: int| open[i].file)
}

/// The name of the file that remembers a connection's pages.
pub fn file_name(connection_name: &str) -> (name: String)
    ensures
        name@ == paths::sanitized(connection_name@) + SIDECAR_SUFFIX@,
        name@ == paths::sanitized(connection_name@) + ".tabs.toml"@,
{
    let mut name: String = paths::sanitize_connection_name(connection_name);
    name.append(SIDECAR_SUFFIX);
    name
}

impl Sidecar {
    /// Nothing is remembered.
    pub fn empty() -> (s: Sidecar)
        ensures
            s.version == SIDECAR_VERSION,
            s.active == 0,
            s.open@.len() == 0,
    {
        Sidecar { version: SIDECAR_VERSION, active: 0, open: Vec::new() }
    }
}

/// What was read, or nothing if it could not be read.
pub fn load(parsed: Option<Sidecar>) -> (s: Sidecar)
    ensures
        match parsed {
            Some(p) => s == p,
            None => s.version == SIDECAR_VERSION && s.active == 0 && s.open@.len() == 0,
        },
{
    match parsed {
        Some(s) => s,
        None => Sidecar::empty(),
    }
}

} // verus!
