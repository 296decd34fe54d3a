//! The viewer's own commands and the contexts they apply in.
use vstd::prelude::*;

verus! {

/// A command the viewer adds to the shared command canon.
#[derive(Clone, Copy, Debug, PartialEq, Eq, Structural)]
pub enum Edict {
    FocusTagEntry,
    NextQueryGroup,
    PreviousQueryGroup,
    OpenViewerTree,
    ToggleViewerTags,
}

/// Where a command applies.
#[derive(Clone, Copy, Debug, PartialEq, Eq, Structural)]
pub enum Context {
    Workbench,
    Viewer,
}

pub open spec fn edict_context(e: Edict) -> Context {
    match e {
        Edict::FocusTagEntry | Edict::NextQueryGroup | Edict::PreviousQueryGroup => Context::Workbench,
        Edict::OpenViewerTree | Edict::ToggleViewerTags => Context::Viewer,
    }
}

impl Edict {
    /// The context the command is scoped to.
    pub fn context(self) -> (r: Context)
        ensures
            r == edict_context(self),
    {
        match self {
            Edict::FocusTagEntry | Edict::NextQueryGroup | Edict::PreviousQueryGroup => Context::Workbench,
            Edict::OpenViewerTree | Edict::ToggleViewerTags => Context::Viewer,
        }
    }
}

} // verus!
