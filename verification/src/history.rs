//! What the line editor is told to do on the keys that the console binds:
//! the interrupt key and the arrows that walk or search the history.

use vstd::prelude::*;

verus! {

/// How the arrow keys currently move through the history.
#[derive(Clone, Copy, Debug, PartialEq, Eq, Structural)]
pub enum SearchMode {
    /// No arrow key has been used since the last other key.
    Normal,
    /// The arrows walk the history entry by entry.
    InNormalHistory,
    /// The arrows search the history for entries that start with the line.
    InCompletion,
}

/// The commands that the console asks of the line editor.
#[derive(Clone, Copy, Debug, PartialEq, Eq, Structural)]
pub enum EditorCommand {
    Interrupt,
    ClearLine,
    NextHistory,
    PreviousHistory,
    HistorySearchForward,
    HistorySearchBackward,
}

/// The interrupt key on an empty line interrupts; on any other line it clears
/// the line.
pub fn on_interrupt(line_is_empty: bool) -> (r: EditorCommand)
    ensures
        r == if line_is_empty {
            EditorCommand::Interrupt
        } else {
            EditorCommand::ClearLine
        },
{
    if line_is_empty {
        EditorCommand::Interrupt
    } else {
        EditorCommand::ClearLine
    }
}

/// The mode after a key sequence: any sequence without an arrow up or down
/// ends the walk or search in progress.
pub fn mode_after_keys(mode: SearchMode, has_vertical_arrow: bool) -> (r: SearchMode)
    ensures
        r == if has_vertical_arrow {
            mode
        } else {
            SearchMode::Normal
        },
{
    if has_vertical_arrow {
        mode
    } else {
        SearchMode::Normal
    }
}

/// The mode in which an arrow key is handled: an empty line starts a walk, and
/// on any other line a walk or search in progress goes on, and a search starts
/// where none is.
pub open spec fn mode_on_arrow(mode: SearchMode, line_is_empty: bool) -> SearchMode {
    if line_is_empty {
        SearchMode::InNormalHistory
    } else {
        match mode {
            SearchMode::Normal => SearchMode::InCompletion,
            _ => mode,
        }
    }
}

/// The command for an arrow key in the mode that has been settled.
pub open spec fn command_on_arrow(mode: SearchMode, forward: bool) -> EditorCommand {
    match mode {
        SearchMode::InCompletion => if forward {
            EditorCommand::HistorySearchForward
        } else {
            EditorCommand::HistorySearchBackward
        },
        _ => if forward {
            EditorCommand::NextHistory
        } else {
            EditorCommand::PreviousHistory
        },
    }
}

/// Handles an arrow up (`forward` unset) or down (`forward` set): returns the
/// new mode and the command for the editor.
pub fn on_arrow(mode: SearchMode, line_is_empty: bool, forward: bool) -> (r: (SearchMode, EditorCommand))
    ensures
        r.0 == mode_on_arrow(mode, line_is_empty),
        r.1 == command_on_arrow(r.0, forward),
        !(r.0 is Normal),
{
    let next = if line_is_empty {
        SearchMode::InNormalHistory
    } else {
        match mode {
            SearchMode::Normal => SearchMode::InCompletion,
            SearchMode::InNormalHistory => SearchMode::InNormalHistory,
            SearchMode::InCompletion => SearchMode::InCompletion,
        }
    };
    let command = match next {
        SearchMode::InCompletion => {
            if forward {
                EditorCommand::HistorySearchForward
            } else {
                EditorCommand::HistorySearchBackward
            }
        },
        _ => {
            if forward {
                EditorCommand::NextHistory
            } else {
                EditorCommand::PreviousHistory
            }
        },
    };
    (next, command)
}

} // verus!
