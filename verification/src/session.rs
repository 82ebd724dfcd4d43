//! The stack of nested sessions and the transaction that the top one may own.

use vstd::prelude::*;
use crate::repl::{FinishHook, Repl};

verus! {

/// The kinds of transaction.
#[derive(Clone, Copy, Debug, PartialEq, Eq, Structural)]
pub enum TransactionType {
    Read,
    Write,
    Schema,
}

/// What the console knows of its open transaction.
#[derive(Clone, Copy, Debug, PartialEq, Eq, Structural)]
pub struct TransactionState {
    pub type_: TransactionType,
    /// Whether a query has written since the transaction was opened.
    pub has_writes: bool,
}

/// What can happen to the sessions of a console.
#[derive(Debug)]
pub enum SessionEvent {
    /// A transaction of this type was opened; `frame` is its session.
    Opened { frame: Repl, type_: TransactionType },
    /// A commit was attempted.
    Committed { succeeded: bool },
    /// The transaction was closed on request.
    Closed,
    /// A rollback was attempted.
    RolledBack { succeeded: bool },
    /// A query was run: whether it wrote, and whether the transaction is
    /// still open after it.
    Queried { wrote: bool, still_open: bool },
    /// The input ended or was interrupted; `leave` tells whether that is to
    /// end the current session.
    EndOfInput { leave: bool },
    /// A command was malformed, unrecognised, or failed without effect on the
    /// transaction.
    Failed,
}

/// The state of the console's sessions: the stack of frames, of which the last
/// is current, and the open transaction if there is one.
#[derive(Debug)]
pub struct Console {
    pub repl_stack: Vec<Repl>,
    pub transaction: Option<TransactionState>,
    /// The directory of the script that is being executed, if any.
    pub script_dir: Option<String>,
    /// The directory from which the console was started.
    pub invocation_dir: String,
}

/// The event ends the current session, provided there is one to end. The
/// transaction events never end the entry session, which is the first.
pub open spec fn pops(event: SessionEvent, depth: nat) -> bool {
    match event {
        SessionEvent::Committed { .. } | SessionEvent::Closed => depth > 1,
        SessionEvent::RolledBack { succeeded } => !succeeded && depth > 1,
        SessionEvent::Queried { still_open, .. } => !still_open && depth > 1,
        SessionEvent::EndOfInput { leave } => leave && depth > 0,
        SessionEvent::Opened { .. } | SessionEvent::Failed => false,
    }
}

/// The events that may end a session at all.
pub open spec fn is_pop_trigger(event: SessionEvent) -> bool {
    match event {
        SessionEvent::Committed { .. } | SessionEvent::Closed => true,
        SessionEvent::RolledBack { succeeded } => !succeeded,
        SessionEvent::Queried { still_open, .. } => !still_open,
        SessionEvent::EndOfInput { leave } => leave,
        SessionEvent::Opened { .. } | SessionEvent::Failed => false,
    }
}

/// The stack of frames after the event.
pub open spec fn stack_after(event: SessionEvent, stack: Seq<Repl>) -> Seq<Repl> {
    match event {
        SessionEvent::Opened { frame, .. } => stack.push(frame),
        _ => if pops(event, stack.len()) {
            stack.drop_last()
        } else {
            stack
        },
    }
}

/// The hook to run after the event: that of the frame that it ended.
pub open spec fn hook_after(event: SessionEvent, stack: Seq<Repl>) -> Option<FinishHook> {
    if pops(event, stack.len()) {
        stack.last().on_finish
    } else {
        None
    }
}

/// What is known of the transaction after the event.
pub open spec fn transaction_after(
    event: SessionEvent,
    stack: Seq<Repl>,
    transaction: Option<TransactionState>,
) -> Option<TransactionState> {
    match event {
        SessionEvent::Opened { type_, .. } => Some(TransactionState { type_, has_writes: false }),
        SessionEvent::Committed { .. } | SessionEvent::Closed => None,
        SessionEvent::RolledBack { succeeded } => if succeeded {
            transaction
        } else {
            None
        },
        SessionEvent::Queried { wrote, still_open } => match transaction {
            Some(state) => if still_open {
                Some(TransactionState { type_: state.type_, has_writes: state.has_writes || wrote })
            } else {
                None
            },
            None => None,
        },
        SessionEvent::EndOfInput { .. } => {
            if hook_after(event, stack) == Some(FinishHook::DropTransaction) {
                None
            } else {
                transaction
            }
        },
        SessionEvent::Failed => transaction,
    }
}

/// The depth of the session stack falls by at most one, and only on an event
/// that is there to end a session: a commit, a close, a failed rollback, a
/// query that left the transaction closed, or the end of the input. A command
/// that is malformed or fails leaves the stack as it is.
pub proof fn lemma_depth_falls_only_on_pop_triggers(event: SessionEvent, stack: Seq<Repl>)
    ensures
        stack_after(event, stack).len() >= stack.len() - 1,
        stack_after(event, stack).len() < stack.len() ==> is_pop_trigger(event),
        event is Failed ==> stack_after(event, stack) == stack,
        !(event is Opened) && !pops(event, stack.len()) ==> stack_after(event, stack) == stack,
        !(event is EndOfInput) && stack.len() >= 1 ==> stack_after(event, stack).len() >= 1,
{
}

/// Once a transaction holds writes it holds them for as long as it is known:
/// no event but the opening of another transaction takes the mark away and
/// leaves a transaction in place.
pub proof fn lemma_writes_stay_marked(
    event: SessionEvent,
    stack: Seq<Repl>,
    transaction: Option<TransactionState>,
)
    requires
        !(event is Opened),
        transaction matches Some(state) && state.has_writes,
    ensures
        transaction_after(event, stack, transaction) matches Some(state) ==> state.has_writes,
{
}

/// The event for an end or an interrupt of the input. The line editor may say
/// whether the line was empty when it was interrupted; the session is left
/// unless it says that it was not.
pub fn end_of_input(interrupt_input_empty: Option<bool>) -> (r: SessionEvent)
    ensures
        r == (SessionEvent::EndOfInput {
            leave: match interrupt_input_empty {
                Some(empty) => empty,
                None => true,
            },
        }),
{
    SessionEvent::EndOfInput {
        leave: match interrupt_input_empty {
            Some(empty) => empty,
            None => true,
        },
    }
}

impl Console {
    /// A console with the entry session `entry` and no transaction.
    pub fn new(entry: Repl, invocation_dir: String) -> (r: Self)
        ensures
            r.repl_stack@ == seq![entry],
            r.transaction is None,
            r.script_dir is None,
            r.invocation_dir == invocation_dir,
    {
        let mut repl_stack = Vec::new();
        repl_stack.push(entry);
        Console { repl_stack, transaction: None, script_dir: None, invocation_dir }
    }

    /// Number of sessions on the stack.
    pub fn depth(&self) -> (r: usize)
        ensures
            r == self.repl_stack@.len(),
    {
        self.repl_stack.len()
    }

    /// The session that owns the next read: the top of the stack.
    pub fn current_repl(&self) -> (r: Option<&Repl>)
        ensures
            match r {
                Some(repl) => self.repl_stack@.len() > 0 && *repl == self.repl_stack@.last(),
                None => self.repl_stack@.len() == 0,
            },
    {
        if self.repl_stack.len() == 0 {
            None
        } else {
            Some(&self.repl_stack[self.repl_stack.len() - 1])
        }
    }

    /// Whether the open transaction holds writes that are not committed.
    pub fn has_changes(&self) -> (r: bool)
        ensures
            r == (self.transaction matches Some(state) && state.has_writes),
    {
        match self.transaction {
            Some(state) => state.has_writes,
            None => false,
        }
    }

    /// The directory against which a relative path is resolved: that of the
    /// script being executed, or else the one the console was started from.
    pub fn base_dir(&self) -> (r: &String)
        ensures
            *r == match self.script_dir {
                Some(dir) => dir,
                None => self.invocation_dir,
            },
    {
        match &self.script_dir {
            Some(dir) => dir,
            None => &self.invocation_dir,
        }
    }

    /// Takes note of `event` and returns the hook that is to be run for the
    /// session that it ended, if any.
    pub fn apply(&mut self, event: SessionEvent) -> (hook: Option<FinishHook>)
        ensures
            final(self).repl_stack@ == stack_after(event, old(self).repl_stack@),
            final(self).transaction == transaction_after(
                event,
                old(self).repl_stack@,
                old(self).transaction,
            ),
            hook == hook_after(event, old(self).repl_stack@),
            final(self).script_dir == old(self).script_dir,
            final(self).invocation_dir == old(self).invocation_dir,
    {
        let depth = self.repl_stack.len();
        match event {
            SessionEvent::Opened { frame, type_ } => {
                self.repl_stack.push(frame);
                self.transaction = Some(TransactionState { type_, has_writes: false });
                None
            },
            SessionEvent::Committed { .. } => {
                self.transaction = None;
                if depth > 1 {
                    self.leave()
                } else {
                    None
                }
            },
            SessionEvent::Closed => {
                self.transaction = None;
                if depth > 1 {
                    self.leave()
                } else {
                    None
                }
            },
            SessionEvent::RolledBack { succeeded } => {
                if !succeeded {
                    self.transaction = None;
                }
                if !succeeded && depth > 1 {
                    self.leave()
                } else {
                    None
                }
            },
            SessionEvent::Queried { wrote, still_open } => {
                self.transaction = match self.transaction {
                    Some(state) => if still_open {
                        Some(
                            TransactionState {
                                type_: state.type_,
                                has_writes: state.has_writes || wrote,
                            },
                        )
                    } else {
                        None
                    },
                    None => None,
                };
                if !still_open && depth > 1 {
                    self.leave()
                } else {
                    None
                }
            },
            SessionEvent::EndOfInput { leave } => {
                if leave && depth > 0 {
                    let hook = self.leave();
                    match hook {
                        Some(FinishHook::DropTransaction) => {
                            self.transaction = None;
                        },
                        None => {},
                    }
                    proof {
                        assert(hook is Some ==> hook == Some(FinishHook::DropTransaction));
                    }
                    hook
                } else {
                    None
                }
            },
            SessionEvent::Failed => None,
        }
    }

    /// Removes the current session and returns its hook.
    fn leave(&mut self) -> (hook: Option<FinishHook>)
        requires
            old(self).repl_stack@.len() > 0,
        ensures
            final(self).repl_stack@ == old(self).repl_stack@.drop_last(),
            hook == old(self).repl_stack@.last().on_finish,
            final(self).transaction == old(self).transaction,
            final(self).script_dir == old(self).script_dir,
            final(self).invocation_dir == old(self).invocation_dir,
    {
        match self.repl_stack.pop() {
            Some(frame) => frame.finished(),
            None => None,
        }
    }
}

} // verus!
