//! The error type shared by the library.
use vstd::prelude::*;

verus! {

/// What can go wrong while listing, monitoring or setting up agents.
#[derive(Debug)]
pub enum AmuxError {
    /// The current process is not running inside a tmux session.
    NotInTmux,
    /// No agent was found in any tmux pane.
    NoAgentsFound,
    /// A tmux command failed or printed something unexpected.
    Tmux(String),
    /// An agent provider failed.
    Provider(String),
    /// fzf exited without a selection.
    FzfNoSelection,
    /// fzf could not be run.
    Fzf(String),
    /// Installing an agent integration failed.
    Setup(String),
}

/// An `AmuxError` with its messages taken as character sequences.
pub enum AmuxErrorView {
    NotInTmux,
    NoAgentsFound,
    Tmux(Seq<char>),
    Provider(Seq<char>),
    FzfNoSelection,
    Fzf(Seq<char>),
    Setup(Seq<char>),
}

impl View for AmuxError {
    type V = AmuxErrorView;

    open spec fn view(&self) -> AmuxErrorView {
        match self {
            AmuxError::NotInTmux => AmuxErrorView::NotInTmux,
            AmuxError::NoAgentsFound => AmuxErrorView::NoAgentsFound,
            AmuxError::Tmux(m) => AmuxErrorView::Tmux(m@),
            AmuxError::Provider(m) => AmuxErrorView::Provider(m@),
            AmuxError::FzfNoSelection => AmuxErrorView::FzfNoSelection,
            AmuxError::Fzf(m) => AmuxErrorView::Fzf(m@),
            AmuxError::Setup(m) => AmuxErrorView::Setup(m@),
        }
    }
}

} // verus!
