//! The status line.
use vstd::prelude::*;

verus! {

#[derive(Debug, Clone, Copy, PartialEq, Eq, Structural)]
pub enum StatusKind {
    Info,
    Error,
    Warn,
}

/// What the status line says.
#[derive(Debug, Clone, PartialEq, Eq)]
pub struct Status {
    pub kind: StatusKind,
    pub text: String,
}

/// A `Status` as a value.
pub struct StatusView {
    pub kind: StatusKind,
    pub text: Seq<char>,
}

impl View for Status {
    type V = StatusView;

    open spec fn view(&self) -> StatusView {
        StatusView { kind: self.kind, text: self.text@ }
    }
}

/// The view of an optional status.
pub open spec fn opt_status(s: Option<Status>) -> Option<StatusView> {
    match s {
        Some(s) => Some(s@),
        None => None,
    }
}

impl Status {
    pub fn info(text: String) -> (s: Self)
        ensures
            s@ == (StatusView { kind: StatusKind::Info, text: text@ }),
    {
        Status { kind: StatusKind::Info, text }
    }

    pub fn error(text: String) -> (s: Self)
        ensures
            s@ == (StatusView { kind: StatusKind::Error, text: text@ }),
    {
        Status { kind: StatusKind::Error, text }
    }

    pub fn warn(text: String) -> (s: Self)
        ensures
            s@ == (StatusView { kind: StatusKind::Warn, text: text@ }),
    {
        Status { kind: StatusKind::Warn, text }
    }
}

} // verus!
