//! Which action a key press or a mouse event stands for, in each input
//! context.
use vstd::prelude::*;

use crate::app::{Action, InputContext};

verus! {

/// The key of a key press.
#[derive(Debug, Clone, Copy, PartialEq, Eq, Structural)]
pub enum KeyCode {
    Char(char),
    Enter,
    Esc,
    Tab,
    BackTab,
    Backspace,
    Up,
    Down,
    Left,
    Right,
    PageUp,
    PageDown,
    Other,
}

/// A key event: the key, whether Control was held, whether no modifier at
/// all was, and whether the key was released rather than pressed.
#[derive(Debug, Clone, Copy, PartialEq, Eq, Structural)]
pub struct KeyPress {
    pub code: KeyCode,
    pub control: bool,
    pub no_modifiers: bool,
    pub release: bool,
}

/// The graph: moving, opening panels, and the remote and branch commands.
pub open spec fn graph_keys(code: KeyCode) -> Option<Action> {
    match code {
        KeyCode::Char('j') | KeyCode::Down => Some(Action::SelectNext),
        KeyCode::Char('k') | KeyCode::Up => Some(Action::SelectPrev),
        KeyCode::Char('G') => Some(Action::SelectLast),
        KeyCode::PageDown => Some(Action::PageDown),
        KeyCode::PageUp => Some(Action::PageUp),
        KeyCode::Enter => Some(Action::OpenPanel),
        KeyCode::Esc => Some(Action::Dismiss),
        KeyCode::Char(' ') => Some(Action::Checkout),
        KeyCode::Char('M') => Some(Action::OpenJoin),
        KeyCode::Char('f') => Some(Action::Fetch),
        KeyCode::Char('p') => Some(Action::Pull),
        KeyCode::Char('P') => Some(Action::Push),
        KeyCode::Char('s') => Some(Action::StashSave),
        KeyCode::Char('S') => Some(Action::ToggleStashes),
        KeyCode::Char('b') => Some(Action::ToggleBranches),
        KeyCode::Char('F') => Some(Action::ToggleFocusPanel),
        KeyCode::Char('>') => Some(Action::ToggleSubmodulePanel),
        KeyCode::Char('<') => Some(Action::ExitSubmodule),
        KeyCode::Char('n') => Some(Action::NewBranch),
        KeyCode::Char('u') => Some(Action::Undo),
        KeyCode::Char('?') => Some(Action::ToggleHelp),
        KeyCode::Char('q') => Some(Action::Quit),
        _ => None,
    }
}

fn on_graph_keys(code: KeyCode) -> (r: Option<Action>)
    ensures
        r == graph_keys(code),
{
    match code {
        KeyCode::Char('j') | KeyCode::Down => Some(Action::SelectNext),
        KeyCode::Char('k') | KeyCode::Up => Some(Action::SelectPrev),
        KeyCode::Char('G') => Some(Action::SelectLast),
        KeyCode::PageDown => Some(Action::PageDown),
        KeyCode::PageUp => Some(Action::PageUp),
        KeyCode::Enter => Some(Action::OpenPanel),
        KeyCode::Esc => Some(Action::Dismiss),
        KeyCode::Char(' ') => Some(Action::Checkout),
        KeyCode::Char('M') => Some(Action::OpenJoin),
        KeyCode::Char('f') => Some(Action::Fetch),
        KeyCode::Char('p') => Some(Action::Pull),
        KeyCode::Char('P') => Some(Action::Push),
        KeyCode::Char('s') => Some(Action::StashSave),
        KeyCode::Char('S') => Some(Action::ToggleStashes),
        KeyCode::Char('b') => Some(Action::ToggleBranches),
        KeyCode::Char('F') => Some(Action::ToggleFocusPanel),
        KeyCode::Char('>') => Some(Action::ToggleSubmodulePanel),
        KeyCode::Char('<') => Some(Action::ExitSubmodule),
        KeyCode::Char('n') => Some(Action::NewBranch),
        KeyCode::Char('u') => Some(Action::Undo),
        KeyCode::Char('?') => Some(Action::ToggleHelp),
        KeyCode::Char('q') => Some(Action::Quit),
        _ => None,
    }
}

/// The working diff: staging, discarding and committing.
pub open spec fn working_keys(code: KeyCode) -> Option<Action> {
    match code {
        KeyCode::Char('j') | KeyCode::Down => Some(Action::SelectNext),
        KeyCode::Char('k') | KeyCode::Up => Some(Action::SelectPrev),
        KeyCode::PageDown => Some(Action::PageDown),
        KeyCode::PageUp => Some(Action::PageUp),
        KeyCode::Char('h') | KeyCode::Left => Some(Action::ScrollDiffLeft),
        KeyCode::Char('l') | KeyCode::Right => Some(Action::ScrollDiffRight),
        KeyCode::Char(' ') => Some(Action::ToggleStage),
        KeyCode::Char('a') => Some(Action::StageAll),
        KeyCode::Char('d') => Some(Action::Discard),
        KeyCode::Char('c') => Some(Action::OpenCommit),
        KeyCode::Char('s') => Some(Action::StashSave),
        KeyCode::Char('b') => Some(Action::ToggleBranches),
        KeyCode::Char('v') => Some(Action::ToggleDiffView),
        KeyCode::Char('u') => Some(Action::Undo),
        KeyCode::Tab | KeyCode::BackTab => Some(Action::ToggleFocus),
        KeyCode::Enter => Some(Action::OpenPanel),
        KeyCode::Esc => Some(Action::Dismiss),
        KeyCode::Char('?') => Some(Action::ToggleHelp),
        KeyCode::Char('q') => Some(Action::Quit),
        _ => None,
    }
}

fn on_working_keys(code: KeyCode) -> (r: Option<Action>)
    ensures
        r == working_keys(code),
{
    match code {
        KeyCode::Char('j') | KeyCode::Down => Some(Action::SelectNext),
        KeyCode::Char('k') | KeyCode::Up => Some(Action::SelectPrev),
        KeyCode::PageDown => Some(Action::PageDown),
        KeyCode::PageUp => Some(Action::PageUp),
        KeyCode::Char('h') | KeyCode::Left => Some(Action::ScrollDiffLeft),
        KeyCode::Char('l') | KeyCode::Right => Some(Action::ScrollDiffRight),
        KeyCode::Char(' ') => Some(Action::ToggleStage),
        KeyCode::Char('a') => Some(Action::StageAll),
        KeyCode::Char('d') => Some(Action::Discard),
        KeyCode::Char('c') => Some(Action::OpenCommit),
        KeyCode::Char('s') => Some(Action::StashSave),
        KeyCode::Char('b') => Some(Action::ToggleBranches),
        KeyCode::Char('v') => Some(Action::ToggleDiffView),
        KeyCode::Char('u') => Some(Action::Undo),
        KeyCode::Tab | KeyCode::BackTab => Some(Action::ToggleFocus),
        KeyCode::Enter => Some(Action::OpenPanel),
        KeyCode::Esc => Some(Action::Dismiss),
        KeyCode::Char('?') => Some(Action::ToggleHelp),
        KeyCode::Char('q') => Some(Action::Quit),
        _ => None,
    }
}

/// The branches panel: checkout, visibility, filtering and deletion.
pub open spec fn branch_keys(code: KeyCode) -> Option<Action> {
    match code {
        KeyCode::Char('j') | KeyCode::Down => Some(Action::SelectNext),
        KeyCode::Char('k') | KeyCode::Up => Some(Action::SelectPrev),
        KeyCode::Enter => Some(Action::Checkout),
        KeyCode::Char(' ') => Some(Action::ToggleBranchVisibility),
        KeyCode::Char('o') => Some(Action::SoloBranch),
        KeyCode::Char('p') => Some(Action::PinBranch),
        KeyCode::Char('/') => Some(Action::StartBranchFilter),
        KeyCode::Char('M') => Some(Action::OpenJoin),
        KeyCode::Char('n') => Some(Action::NewBranch),
        KeyCode::Char('d') => Some(Action::DeleteBranch),
        KeyCode::Char('b') | KeyCode::Esc => Some(Action::Dismiss),
        KeyCode::Char('u') => Some(Action::Undo),
        KeyCode::Char('?') => Some(Action::ToggleHelp),
        KeyCode::Char('q') => Some(Action::Quit),
        _ => None,
    }
}

fn on_branch_keys(code: KeyCode) -> (r: Option<Action>)
    ensures
        r == branch_keys(code),
{
    match code {
        KeyCode::Char('j') | KeyCode::Down => Some(Action::SelectNext),
        KeyCode::Char('k') | KeyCode::Up => Some(Action::SelectPrev),
        KeyCode::Enter => Some(Action::Checkout),
        KeyCode::Char(' ') => Some(Action::ToggleBranchVisibility),
        KeyCode::Char('o') => Some(Action::SoloBranch),
        KeyCode::Char('p') => Some(Action::PinBranch),
        KeyCode::Char('/') => Some(Action::StartBranchFilter),
        KeyCode::Char('M') => Some(Action::OpenJoin),
        KeyCode::Char('n') => Some(Action::NewBranch),
        KeyCode::Char('d') => Some(Action::DeleteBranch),
        KeyCode::Char('b') | KeyCode::Esc => Some(Action::Dismiss),
        KeyCode::Char('u') => Some(Action::Undo),
        KeyCode::Char('?') => Some(Action::ToggleHelp),
        KeyCode::Char('q') => Some(Action::Quit),
        _ => None,
    }
}

/// The focus sets panel.
pub open spec fn focus_keys(code: KeyCode) -> Option<Action> {
    match code {
        KeyCode::Char('j') | KeyCode::Down => Some(Action::SelectNext),
        KeyCode::Char('k') | KeyCode::Up => Some(Action::SelectPrev),
        KeyCode::Enter => Some(Action::ActivateFocus),
        KeyCode::Char('n') => Some(Action::SaveFocus),
        KeyCode::Char('d') => Some(Action::DeleteFocus),
        KeyCode::Char('F') | KeyCode::Esc => Some(Action::Dismiss),
        KeyCode::Char('?') => Some(Action::ToggleHelp),
        KeyCode::Char('q') => Some(Action::Quit),
        _ => None,
    }
}

fn on_focus_keys(code: KeyCode) -> (r: Option<Action>)
    ensures
        r == focus_keys(code),
{
    match code {
        KeyCode::Char('j') | KeyCode::Down => Some(Action::SelectNext),
        KeyCode::Char('k') | KeyCode::Up => Some(Action::SelectPrev),
        KeyCode::Enter => Some(Action::ActivateFocus),
        KeyCode::Char('n') => Some(Action::SaveFocus),
        KeyCode::Char('d') => Some(Action::DeleteFocus),
        KeyCode::Char('F') | KeyCode::Esc => Some(Action::Dismiss),
        KeyCode::Char('?') => Some(Action::ToggleHelp),
        KeyCode::Char('q') => Some(Action::Quit),
        _ => None,
    }
}

/// A commit's diff in full screen.
pub open spec fn commit_diff_keys(code: KeyCode) -> Option<Action> {
    match code {
        KeyCode::Char('j') | KeyCode::Down => Some(Action::SelectNext),
        KeyCode::Char('k') | KeyCode::Up => Some(Action::SelectPrev),
        KeyCode::PageDown => Some(Action::PageDown),
        KeyCode::PageUp => Some(Action::PageUp),
        KeyCode::Char('h') | KeyCode::Left => Some(Action::ScrollDiffLeft),
        KeyCode::Char('l') | KeyCode::Right => Some(Action::ScrollDiffRight),
        KeyCode::Tab | KeyCode::BackTab => Some(Action::ToggleFocus),
        KeyCode::Char('v') => Some(Action::ToggleDiffView),
        KeyCode::Enter | KeyCode::Esc => Some(Action::Dismiss),
        KeyCode::Char('?') => Some(Action::ToggleHelp),
        KeyCode::Char('q') => Some(Action::Quit),
        _ => None,
    }
}

fn on_commit_diff_keys(code: KeyCode) -> (r: Option<Action>)
    ensures
        r == commit_diff_keys(code),
{
    match code {
        KeyCode::Char('j') | KeyCode::Down => Some(Action::SelectNext),
        KeyCode::Char('k') | KeyCode::Up => Some(Action::SelectPrev),
        KeyCode::PageDown => Some(Action::PageDown),
        KeyCode::PageUp => Some(Action::PageUp),
        KeyCode::Char('h') | KeyCode::Left => Some(Action::ScrollDiffLeft),
        KeyCode::Char('l') | KeyCode::Right => Some(Action::ScrollDiffRight),
        KeyCode::Tab | KeyCode::BackTab => Some(Action::ToggleFocus),
        KeyCode::Char('v') => Some(Action::ToggleDiffView),
        KeyCode::Enter | KeyCode::Esc => Some(Action::Dismiss),
        KeyCode::Char('?') => Some(Action::ToggleHelp),
        KeyCode::Char('q') => Some(Action::Quit),
        _ => None,
    }
}

/// The submodules panel.
pub open spec fn submodule_keys(code: KeyCode) -> Option<Action> {
    match code {
        KeyCode::Char('j') | KeyCode::Down => Some(Action::SelectNext),
        KeyCode::Char('k') | KeyCode::Up => Some(Action::SelectPrev),
        KeyCode::Enter => Some(Action::EnterSubmodule),
        KeyCode::Char('i') => Some(Action::InitSubmodule),
        KeyCode::Char('u') => Some(Action::UpdateSubmodule),
        KeyCode::Char('>') | KeyCode::Esc => Some(Action::Dismiss),
        KeyCode::Char('?') => Some(Action::ToggleHelp),
        KeyCode::Char('q') => Some(Action::Quit),
        _ => None,
    }
}

fn on_submodule_keys(code: KeyCode) -> (r: Option<Action>)
    ensures
        r == submodule_keys(code),
{
    match code {
        KeyCode::Char('j') | KeyCode::Down => Some(Action::SelectNext),
        KeyCode::Char('k') | KeyCode::Up => Some(Action::SelectPrev),
        KeyCode::Enter => Some(Action::EnterSubmodule),
        KeyCode::Char('i') => Some(Action::InitSubmodule),
        KeyCode::Char('u') => Some(Action::UpdateSubmodule),
        KeyCode::Char('>') | KeyCode::Esc => Some(Action::Dismiss),
        KeyCode::Char('?') => Some(Action::ToggleHelp),
        KeyCode::Char('q') => Some(Action::Quit),
        _ => None,
    }
}

/// The join menu.
pub open spec fn join_keys(code: KeyCode) -> Option<Action> {
    match code {
        KeyCode::Char('j') | KeyCode::Down => Some(Action::SelectNext),
        KeyCode::Char('k') | KeyCode::Up => Some(Action::SelectPrev),
        KeyCode::Enter => Some(Action::ExecuteJoin),
        KeyCode::Char('M') | KeyCode::Esc => Some(Action::Dismiss),
        KeyCode::Char('u') => Some(Action::Undo),
        KeyCode::Char('?') => Some(Action::ToggleHelp),
        KeyCode::Char('q') => Some(Action::Quit),
        _ => None,
    }
}

fn on_join_keys(code: KeyCode) -> (r: Option<Action>)
    ensures
        r == join_keys(code),
{
    match code {
        KeyCode::Char('j') | KeyCode::Down => Some(Action::SelectNext),
        KeyCode::Char('k') | KeyCode::Up => Some(Action::SelectPrev),
        KeyCode::Enter => Some(Action::ExecuteJoin),
        KeyCode::Char('M') | KeyCode::Esc => Some(Action::Dismiss),
        KeyCode::Char('u') => Some(Action::Undo),
        KeyCode::Char('?') => Some(Action::ToggleHelp),
        KeyCode::Char('q') => Some(Action::Quit),
        _ => None,
    }
}

/// The stash list.
pub open spec fn stash_keys(code: KeyCode) -> Option<Action> {
    match code {
        KeyCode::Char('j') | KeyCode::Down => Some(Action::SelectNext),
        KeyCode::Char('k') | KeyCode::Up => Some(Action::SelectPrev),
        KeyCode::Tab | KeyCode::BackTab => Some(Action::ToggleFocus),
        KeyCode::Enter => Some(Action::OpenPanel),
        KeyCode::Char('p') => Some(Action::StashPop),
        KeyCode::Char('a') => Some(Action::StashApply),
        KeyCode::Char('d') => Some(Action::StashDrop),
        KeyCode::Char('x') => Some(Action::StashRestoreFile),
        KeyCode::Char('b') => Some(Action::StashBranch),
        KeyCode::Char('v') => Some(Action::ToggleDiffView),
        KeyCode::Char('/') => Some(Action::StartStashFilter),
        KeyCode::Char('S') | KeyCode::Esc => Some(Action::Dismiss),
        KeyCode::Char('u') => Some(Action::Undo),
        KeyCode::Char('?') => Some(Action::ToggleHelp),
        KeyCode::Char('q') => Some(Action::Quit),
        _ => None,
    }
}

fn on_stash_keys(code: KeyCode) -> (r: Option<Action>)
    ensures
        r == stash_keys(code),
{
    match code {
        KeyCode::Char('j') | KeyCode::Down => Some(Action::SelectNext),
        KeyCode::Char('k') | KeyCode::Up => Some(Action::SelectPrev),
        KeyCode::Tab | KeyCode::BackTab => Some(Action::ToggleFocus),
        KeyCode::Enter => Some(Action::OpenPanel),
        KeyCode::Char('p') => Some(Action::StashPop),
        KeyCode::Char('a') => Some(Action::StashApply),
        KeyCode::Char('d') => Some(Action::StashDrop),
        KeyCode::Char('x') => Some(Action::StashRestoreFile),
        KeyCode::Char('b') => Some(Action::StashBranch),
        KeyCode::Char('v') => Some(Action::ToggleDiffView),
        KeyCode::Char('/') => Some(Action::StartStashFilter),
        KeyCode::Char('S') | KeyCode::Esc => Some(Action::Dismiss),
        KeyCode::Char('u') => Some(Action::Undo),
        KeyCode::Char('?') => Some(Action::ToggleHelp),
        KeyCode::Char('q') => Some(Action::Quit),
        _ => None,
    }
}

/// The conflict resolver.
pub open spec fn conflict_keys(code: KeyCode) -> Option<Action> {
    match code {
        KeyCode::Char('j') | KeyCode::Down => Some(Action::SelectNext),
        KeyCode::Char('k') | KeyCode::Up => Some(Action::SelectPrev),
        KeyCode::Tab => Some(Action::ConflictNextFile),
        KeyCode::Char('o') => Some(Action::TakeOurs),
        KeyCode::Char('t') => Some(Action::TakeTheirs),
        KeyCode::Char('e') => Some(Action::EditConflict),
        KeyCode::Char('s') => Some(Action::SkipRebase),
        KeyCode::Char('c') => Some(Action::ContinueConflict),
        KeyCode::Char('A') | KeyCode::Esc => Some(Action::AbortConflict),
        KeyCode::Char('?') => Some(Action::ToggleHelp),
        KeyCode::Char('q') => Some(Action::Quit),
        _ => None,
    }
}

fn on_conflict_keys(code: KeyCode) -> (r: Option<Action>)
    ensures
        r == conflict_keys(code),
{
    match code {
        KeyCode::Char('j') | KeyCode::Down => Some(Action::SelectNext),
        KeyCode::Char('k') | KeyCode::Up => Some(Action::SelectPrev),
        KeyCode::Tab => Some(Action::ConflictNextFile),
        KeyCode::Char('o') => Some(Action::TakeOurs),
        KeyCode::Char('t') => Some(Action::TakeTheirs),
        KeyCode::Char('e') => Some(Action::EditConflict),
        KeyCode::Char('s') => Some(Action::SkipRebase),
        KeyCode::Char('c') => Some(Action::ContinueConflict),
        KeyCode::Char('A') | KeyCode::Esc => Some(Action::AbortConflict),
        KeyCode::Char('?') => Some(Action::ToggleHelp),
        KeyCode::Char('q') => Some(Action::Quit),
        _ => None,
    }
}

/// A yes/no question.
pub open spec fn confirm_keys(code: KeyCode) -> Option<Action> {
    match code {
        KeyCode::Char('y') | KeyCode::Enter => Some(Action::ConfirmYes),
        KeyCode::Char('n') | KeyCode::Esc => Some(Action::ConfirmNo),
        _ => None,
    }
}

fn on_confirm_keys(code: KeyCode) -> (r: Option<Action>)
    ensures
        r == confirm_keys(code),
{
    match code {
        KeyCode::Char('y') | KeyCode::Enter => Some(Action::ConfirmYes),
        KeyCode::Char('n') | KeyCode::Esc => Some(Action::ConfirmNo),
        _ => None,
    }
}

pub open spec fn commit_text(key: KeyPress) -> Option<Action> {
    match key.code {
        KeyCode::Enter => Some(Action::CommitSubmit),
        KeyCode::Backspace => Some(Action::CommitBackspace),
        KeyCode::Esc => Some(Action::Dismiss),
        KeyCode::Char(c) => if key.control {
            None
        } else {
            Some(Action::CommitInput(c))
        },
        _ => None,
    }
}

fn on_commit_text(key: KeyPress) -> (r: Option<Action>)
    ensures
        r == commit_text(key),
{
    match key.code {
        KeyCode::Enter => Some(Action::CommitSubmit),
        KeyCode::Backspace => Some(Action::CommitBackspace),
        KeyCode::Esc => Some(Action::Dismiss),
        KeyCode::Char(c) => if key.control {
            None
        } else {
            Some(Action::CommitInput(c))
        },
        _ => None,
    }
}

pub open spec fn stash_message_text(key: KeyPress) -> Option<Action> {
    match key.code {
        KeyCode::Enter => Some(Action::StashMessageSubmit),
        KeyCode::Backspace => Some(Action::StashMessageBackspace),
        KeyCode::Esc => Some(Action::Dismiss),
        KeyCode::Char(c) => if key.control {
            None
        } else {
            Some(Action::StashMessageInput(c))
        },
        _ => None,
    }
}

fn on_stash_message_text(key: KeyPress) -> (r: Option<Action>)
    ensures
        r == stash_message_text(key),
{
    match key.code {
        KeyCode::Enter => Some(Action::StashMessageSubmit),
        KeyCode::Backspace => Some(Action::StashMessageBackspace),
        KeyCode::Esc => Some(Action::Dismiss),
        KeyCode::Char(c) => if key.control {
            None
        } else {
            Some(Action::StashMessageInput(c))
        },
        _ => None,
    }
}

pub open spec fn branch_name_text(key: KeyPress) -> Option<Action> {
    match key.code {
        KeyCode::Enter => Some(Action::BranchNameSubmit),
        KeyCode::Backspace => Some(Action::BranchNameBackspace),
        KeyCode::Esc => Some(Action::Dismiss),
        KeyCode::Char(c) => if key.control {
            None
        } else {
            Some(Action::BranchNameInput(c))
        },
        _ => None,
    }
}

fn on_branch_name_text(key: KeyPress) -> (r: Option<Action>)
    ensures
        r == branch_name_text(key),
{
    match key.code {
        KeyCode::Enter => Some(Action::BranchNameSubmit),
        KeyCode::Backspace => Some(Action::BranchNameBackspace),
        KeyCode::Esc => Some(Action::Dismiss),
        KeyCode::Char(c) => if key.control {
            None
        } else {
            Some(Action::BranchNameInput(c))
        },
        _ => None,
    }
}

pub open spec fn branch_filter_text(key: KeyPress) -> Option<Action> {
    match key.code {
        KeyCode::Enter => Some(Action::BranchFilterSubmit),
        KeyCode::Backspace => Some(Action::BranchFilterBackspace),
        KeyCode::Esc => Some(Action::Dismiss),
        KeyCode::Char(c) => if key.control {
            None
        } else {
            Some(Action::BranchFilterInput(c))
        },
        _ => None,
    }
}

fn on_branch_filter_text(key: KeyPress) -> (r: Option<Action>)
    ensures
        r == branch_filter_text(key),
{
    match key.code {
        KeyCode::Enter => Some(Action::BranchFilterSubmit),
        KeyCode::Backspace => Some(Action::BranchFilterBackspace),
        KeyCode::Esc => Some(Action::Dismiss),
        KeyCode::Char(c) => if key.control {
            None
        } else {
            Some(Action::BranchFilterInput(c))
        },
        _ => None,
    }
}

pub open spec fn stash_filter_text(key: KeyPress) -> Option<Action> {
    match key.code {
        KeyCode::Enter => Some(Action::StashFilterSubmit),
        KeyCode::Backspace => Some(Action::StashFilterBackspace),
        KeyCode::Esc => Some(Action::Dismiss),
        KeyCode::Char(c) => if key.control {
            None
        } else {
            Some(Action::StashFilterInput(c))
        },
        _ => None,
    }
}

fn on_stash_filter_text(key: KeyPress) -> (r: Option<Action>)
    ensures
        r == stash_filter_text(key),
{
    match key.code {
        KeyCode::Enter => Some(Action::StashFilterSubmit),
        KeyCode::Backspace => Some(Action::StashFilterBackspace),
        KeyCode::Esc => Some(Action::Dismiss),
        KeyCode::Char(c) => if key.control {
            None
        } else {
            Some(Action::StashFilterInput(c))
        },
        _ => None,
    }
}

pub open spec fn focus_name_text(key: KeyPress) -> Option<Action> {
    match key.code {
        KeyCode::Enter => Some(Action::FocusNameSubmit),
        KeyCode::Backspace => Some(Action::FocusNameBackspace),
        KeyCode::Esc => Some(Action::Dismiss),
        KeyCode::Char(c) => if key.control {
            None
        } else {
            Some(Action::FocusNameInput(c))
        },
        _ => None,
    }
}

fn on_focus_name_text(key: KeyPress) -> (r: Option<Action>)
    ensures
        r == focus_name_text(key),
{
    match key.code {
        KeyCode::Enter => Some(Action::FocusNameSubmit),
        KeyCode::Backspace => Some(Action::FocusNameBackspace),
        KeyCode::Esc => Some(Action::Dismiss),
        KeyCode::Char(c) => if key.control {
            None
        } else {
            Some(Action::FocusNameInput(c))
        },
        _ => None,
    }
}

pub open spec fn password_text(key: KeyPress) -> Option<Action> {
    match key.code {
        KeyCode::Enter => Some(Action::PasswordSubmit),
        KeyCode::Backspace => Some(Action::PasswordBackspace),
        KeyCode::Esc => Some(Action::Dismiss),
        KeyCode::Char(c) => if key.control {
            None
        } else {
            Some(Action::PasswordInput(c))
        },
        _ => None,
    }
}

fn on_password_text(key: KeyPress) -> (r: Option<Action>)
    ensures
        r == password_text(key),
{
    match key.code {
        KeyCode::Enter => Some(Action::PasswordSubmit),
        KeyCode::Backspace => Some(Action::PasswordBackspace),
        KeyCode::Esc => Some(Action::Dismiss),
        KeyCode::Char(c) => if key.control {
            None
        } else {
            Some(Action::PasswordInput(c))
        },
        _ => None,
    }
}

/// The palette: typing filters, arrows and Control-N/P move.
pub open spec fn palette_text(key: KeyPress) -> Option<Action> {
    match key.code {
        KeyCode::Enter => Some(Action::PaletteSubmit),
        KeyCode::Backspace => Some(Action::PaletteBackspace),
        KeyCode::Esc => Some(Action::Dismiss),
        KeyCode::Up => Some(Action::SelectPrev),
        KeyCode::Down => Some(Action::SelectNext),
        KeyCode::Char(c) => if key.control {
            if c == 'n' {
                Some(Action::SelectNext)
            } else if c == 'p' {
                Some(Action::SelectPrev)
            } else {
                None
            }
        } else {
            Some(Action::PaletteInput(c))
        },
        _ => None,
    }
}

fn on_palette_text(key: KeyPress) -> (r: Option<Action>)
    ensures
        r == palette_text(key),
{
    match key.code {
        KeyCode::Enter => Some(Action::PaletteSubmit),
        KeyCode::Backspace => Some(Action::PaletteBackspace),
        KeyCode::Esc => Some(Action::Dismiss),
        KeyCode::Up => Some(Action::SelectPrev),
        KeyCode::Down => Some(Action::SelectNext),
        KeyCode::Char(c) => if key.control {
            if c == 'n' {
                Some(Action::SelectNext)
            } else if c == 'p' {
                Some(Action::SelectPrev)
            } else {
                None
            }
        } else {
            Some(Action::PaletteInput(c))
        },
        _ => None,
    }
}

/// What a key does in the graph, where `g` twice jumps to the first commit:
/// the action and whether a first `g` is now pending.
pub open spec fn graph_step(pending_g: bool, key: KeyPress) -> (Option<Action>, bool) {
    if key.code == KeyCode::Char('p') && key.control {
        (Some(Action::OpenPalette), pending_g)
    } else if key.code == KeyCode::Char('g') && key.no_modifiers {
        if pending_g {
            (Some(Action::SelectFirst), false)
        } else {
            (None, true)
        }
    } else {
        (graph_keys(key.code), false)
    }
}

/// The action of a key in a context, and whether a first `g` is pending
/// after it: releases do nothing, Control-C quits everywhere.
pub open spec fn key_step(pending_g: bool, key: KeyPress, context: InputContext) -> (Option<Action>, bool) {
    if key.release {
        (None, pending_g)
    } else if key.code == KeyCode::Char('c') && key.control {
        (Some(Action::Quit), pending_g)
    } else {
        match context {
            InputContext::Graph => graph_step(pending_g, key),
            InputContext::Working => (working_keys(key.code), pending_g),
            InputContext::Commit => (commit_text(key), pending_g),
            InputContext::StashMessage => (stash_message_text(key), pending_g),
            InputContext::Confirm => (confirm_keys(key.code), pending_g),
            InputContext::Branch => (branch_keys(key.code), pending_g),
            InputContext::BranchName => (branch_name_text(key), pending_g),
            InputContext::BranchFilter => (branch_filter_text(key), pending_g),
            InputContext::StashFilter => (stash_filter_text(key), pending_g),
            InputContext::FocusSets => (focus_keys(key.code), pending_g),
            InputContext::FocusName => (focus_name_text(key), pending_g),
            InputContext::Submodules => (submodule_keys(key.code), pending_g),
            InputContext::CommitDiff => (commit_diff_keys(key.code), pending_g),
            InputContext::Alert => (Some(Action::Dismiss), pending_g),
            InputContext::Join => (join_keys(key.code), pending_g),
            InputContext::Conflict => (conflict_keys(key.code), pending_g),
            InputContext::Stash => (stash_keys(key.code), pending_g),
            InputContext::Palette => (palette_text(key), pending_g),
            InputContext::Password => (password_text(key), pending_g),
        }
    }
}

/// Turns key presses and mouse events into actions.
pub struct InputMap {
    pending_g: bool,
}

impl Default for InputMap {
    fn default() -> (r: Self)
        ensures
            !r.pending(),
    {
        InputMap { pending_g: false }
    }
}

impl InputMap {
    /// Whether a first `g` waits for a second.
    pub closed spec fn pending(&self) -> bool {
        self.pending_g
    }

    pub fn on_key(&mut self, key: KeyPress, context: InputContext) -> (r: Option<Action>)
        ensures
            (r, final(self).pending()) == key_step(old(self).pending(), key, context),
    {
        if key.release {
            return None;
        }
        if key.code == KeyCode::Char('c') && key.control {
            return Some(Action::Quit);
        }
        match context {
            InputContext::Graph => self.on_graph_key(key),
            InputContext::Working => on_working_keys(key.code),
            InputContext::Commit => on_commit_text(key),
            InputContext::StashMessage => on_stash_message_text(key),
            InputContext::Confirm => on_confirm_keys(key.code),
            InputContext::Branch => on_branch_keys(key.code),
            InputContext::BranchName => on_branch_name_text(key),
            InputContext::BranchFilter => on_branch_filter_text(key),
            InputContext::StashFilter => on_stash_filter_text(key),
            InputContext::FocusSets => on_focus_keys(key.code),
            InputContext::FocusName => on_focus_name_text(key),
            InputContext::Submodules => on_submodule_keys(key.code),
            InputContext::CommitDiff => on_commit_diff_keys(key.code),
            InputContext::Alert => Some(Action::Dismiss),
            InputContext::Join => on_join_keys(key.code),
            InputContext::Conflict => on_conflict_keys(key.code),
            InputContext::Stash => on_stash_keys(key.code),
            InputContext::Palette => on_palette_text(key),
            InputContext::Password => on_password_text(key),
        }
    }

    fn on_graph_key(&mut self, key: KeyPress) -> (r: Option<Action>)
        ensures
            (r, final(self).pending()) == graph_step(old(self).pending(), key),
    {
        if key.code == KeyCode::Char('p') && key.control {
            return Some(Action::OpenPalette);
        }
        if key.code == KeyCode::Char('g') && key.no_modifiers {
            if self.pending_g {
                self.pending_g = false;
                return Some(Action::SelectFirst);
            }
            self.pending_g = true;
            return None;
        }
        self.pending_g = false;
        on_graph_keys(key.code)
    }
}

/// The commit list's width on the left of a full-screen commit diff.
pub const FILE_PANE_WIDTH: u16 = 46;

/// A screen rectangle.
#[derive(Debug, Clone, Copy, PartialEq, Eq, Structural)]
pub struct Area {
    pub x: u16,
    pub y: u16,
    pub width: u16,
    pub height: u16,
}

#[derive(Debug, Clone, Copy, PartialEq, Eq, Structural)]
pub enum MouseKind {
    LeftDown,
    LeftDrag,
    LeftUp,
    ScrollDown,
    ScrollUp,
    Other,
}

/// A mouse event: what happened, and where.
#[derive(Debug, Clone, Copy, PartialEq, Eq, Structural)]
pub struct MouseInput {
    pub kind: MouseKind,
    pub column: u16,
    pub row: u16,
}

pub open spec fn inside(area: Area, column: u16, row: u16) -> bool {
    column >= area.x && column < area.x + area.width && row >= area.y && row < area.y + area.height
}

/// The action of a mouse event over the graph: the wheel scrolls (the file
/// list when over it in a full-screen commit diff), and the left button
/// presses, drags and releases on graph rows; a release elsewhere cancels.
pub open spec fn mouse_action(mouse: MouseInput, graph_area: Area, context: InputContext) -> Option<Action> {
    let in_graph = inside(graph_area, mouse.column, mouse.row);
    let row = (mouse.row - graph_area.y) as usize;
    let over_file_list = context == InputContext::CommitDiff && mouse.column < graph_area.x
        + FILE_PANE_WIDTH;
    match mouse.kind {
        MouseKind::ScrollDown => if over_file_list {
            Some(Action::ScrollFilesDown)
        } else {
            Some(Action::ScrollDown)
        },
        MouseKind::ScrollUp => if over_file_list {
            Some(Action::ScrollFilesUp)
        } else {
            Some(Action::ScrollUp)
        },
        MouseKind::LeftDown => if in_graph {
            Some(Action::PointerDown(row))
        } else {
            None
        },
        MouseKind::LeftDrag => if in_graph {
            Some(Action::PointerDrag(row))
        } else {
            None
        },
        MouseKind::LeftUp => if in_graph {
            Some(Action::PointerUp(row))
        } else {
            Some(Action::PointerCancel)
        },
        MouseKind::Other => None,
    }
}

impl InputMap {
    pub fn on_mouse(&mut self, mouse: MouseInput, graph_area: Area, context: InputContext) -> (r: Option<Action>)
        requires
            graph_area.x + graph_area.width <= u16::MAX,
            graph_area.y + graph_area.height <= u16::MAX,
            graph_area.x + FILE_PANE_WIDTH <= u16::MAX,
        ensures
            r == mouse_action(mouse, graph_area, context),
            final(self).pending() == old(self).pending(),
    {
        let in_graph = mouse.column >= graph_area.x && mouse.column < graph_area.x + graph_area.width
            && mouse.row >= graph_area.y && mouse.row < graph_area.y + graph_area.height;
        let over_file_list = context == InputContext::CommitDiff && mouse.column < graph_area.x
            + FILE_PANE_WIDTH;
        match mouse.kind {
            MouseKind::ScrollDown => if over_file_list {
                Some(Action::ScrollFilesDown)
            } else {
                Some(Action::ScrollDown)
            },
            MouseKind::ScrollUp => if over_file_list {
                Some(Action::ScrollFilesUp)
            } else {
                Some(Action::ScrollUp)
            },
            MouseKind::LeftDown => if in_graph {
                Some(Action::PointerDown((mouse.row - graph_area.y) as usize))
            } else {
                None
            },
            MouseKind::LeftDrag => if in_graph {
                Some(Action::PointerDrag((mouse.row - graph_area.y) as usize))
            } else {
                None
            },
            MouseKind::LeftUp => if in_graph {
                Some(Action::PointerUp((mouse.row - graph_area.y) as usize))
            } else {
                Some(Action::PointerCancel)
            },
            MouseKind::Other => None,
        }
    }
}

} // verus!
