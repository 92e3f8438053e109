//! The display of an error with its causes, piece by piece.
//!
//! A `ChainWriter` decides what is written next. It is driven from outside: it names
//! an action, and is told what came of it. A piece that cannot be written ends it,
//! and no further cause is asked for.

use vstd::prelude::*;
use crate::errors::{joined, ErrorChain};

verus! {

/// What a writer asks for.
#[derive(Clone, Copy, Debug, PartialEq, Eq, Structural)]
pub enum WriteAction {
    /// To write the error itself.
    WriteError,
    /// To say whether what was written last has a cause.
    AskCause,
    /// To write a colon and a space.
    WriteSeparator,
    /// To write that cause.
    WriteCause,
    /// To end: all is written.
    Finish,
    /// To end: a piece could not be written.
    Fail,
}

/// What came of an action.
#[derive(Clone, Copy, Debug, PartialEq, Eq, Structural)]
pub enum WriteEvent {
    Written,
    /// The piece could not be written.
    Failed,
    /// Whether there is a cause.
    Cause(bool),
}

/// What a writer does at `event` after it asked for `action`: what it asks for then.
/// There is nothing for an event that does not answer the action, and nothing after
/// the end.
pub open spec fn advance(action: WriteAction, event: WriteEvent) -> Option<WriteAction> {
    match (action, event) {
        (WriteAction::WriteError, WriteEvent::Written) => Some(WriteAction::AskCause),
        (WriteAction::AskCause, WriteEvent::Cause(true)) => Some(WriteAction::WriteSeparator),
        (WriteAction::AskCause, WriteEvent::Cause(false)) => Some(WriteAction::Finish),
        (WriteAction::WriteSeparator, WriteEvent::Written) => Some(WriteAction::WriteCause),
        (WriteAction::WriteCause, WriteEvent::Written) => Some(WriteAction::AskCause),
        (
            WriteAction::WriteError | WriteAction::WriteSeparator | WriteAction::WriteCause,
            WriteEvent::Failed,
        ) => Some(WriteAction::Fail),
        _ => None,
    }
}

/// Writes an error with its causes.
pub struct ChainWriter {
    action: WriteAction,
}

impl ChainWriter {
    /// What the writer asks for.
    pub closed spec fn asks(&self) -> WriteAction {
        self.action
    }

    /// Begins with the error itself.
    pub fn new() -> (writer: ChainWriter)
        ensures
            writer.asks() == WriteAction::WriteError,
    {
        ChainWriter { action: WriteAction::WriteError }
    }

    /// What the writer asks for.
    pub fn action(&self) -> (action: WriteAction)
        ensures
            action == self.asks(),
    {
        self.action
    }

    /// Goes on with what came of the last action. There is nothing to go on with for
    /// an event that does not answer it.
    pub fn step(self, event: WriteEvent) -> (next: Option<ChainWriter>)
        ensures
            match (advance(self.asks(), event), next) {
                (Some(action), Some(writer)) => writer.asks() == action,
                (None, None) => true,
                _ => false,
            },
    {
        let action = match (self.action, event) {
            (WriteAction::WriteError, WriteEvent::Written) => WriteAction::AskCause,
            (WriteAction::AskCause, WriteEvent::Cause(true)) => WriteAction::WriteSeparator,
            (WriteAction::AskCause, WriteEvent::Cause(false)) => WriteAction::Finish,
            (WriteAction::WriteSeparator, WriteEvent::Written) => WriteAction::WriteCause,
            (WriteAction::WriteCause, WriteEvent::Written) => WriteAction::AskCause,
            (
                WriteAction::WriteError | WriteAction::WriteSeparator | WriteAction::WriteCause,
                WriteEvent::Failed,
            ) => WriteAction::Fail,
            _ => return None,
        };
        Some(ChainWriter { action })
    }
}

/// The first `n` actions of a writer from `action` on, that one first, where every
/// piece can be written and there are so many causes left.
pub open spec fn run(action: WriteAction, causes: nat, n: nat) -> Seq<WriteAction>
    decreases n,
{
    if n == 0 {
        Seq::empty()
    } else {
        let (event, left) = if action == WriteAction::AskCause {
            (
                WriteEvent::Cause(causes > 0),
                if causes > 0 {
                    (causes - 1) as nat
                } else {
                    0
                },
            )
        } else {
            (WriteEvent::Written, causes)
        };
        match advance(action, event) {
            Some(next) => seq![action] + run(next, left, (n - 1) as nat),
            None => seq![action],
        }
    }
}

/// What `actions` write of an error with these messages, where the message at `next`
/// is that of the next cause.
pub open spec fn written(
    actions: Seq<WriteAction>,
    messages: Seq<Seq<char>>,
    next: int,
) -> Seq<char>
    decreases actions.len(),
{
    if actions.len() == 0 {
        Seq::empty()
    } else {
        let rest = actions.drop_first();
        match actions[0] {
            WriteAction::WriteError => messages[0] + written(rest, messages, next),
            WriteAction::WriteSeparator => ": "@ + written(rest, messages, next),
            WriteAction::WriteCause => messages[next] + written(rest, messages, next + 1),
            _ => written(rest, messages, next),
        }
    }
}

/// The first messages, and what is written from the question for the next cause on,
/// are all messages.
proof fn lemma_causes_are_written(messages: Seq<Seq<char>>, next: int, n: nat)
    requires
        1 <= next <= messages.len(),
        n >= 3 * (messages.len() - next) + 2,
    ensures
        ({
            let left = (messages.len() - next) as nat;
            let actions = run(WriteAction::AskCause, left, n);
            &&& joined(messages.take(next), ": "@) + written(actions, messages, next) == joined(
                messages,
                ": "@,
            )
            &&& actions.len() > 0 && actions.last() == WriteAction::Finish
        }),
    decreases messages.len() - next,
{
    let left = (messages.len() - next) as nat;
    let actions = run(WriteAction::AskCause, left, n);
    if left == 0 {
        let end = run(WriteAction::Finish, 0, (n - 1) as nat);
        assert(end == seq![WriteAction::Finish]);
        assert(actions == seq![WriteAction::AskCause] + end);
        assert(actions.drop_first() =~= end);
        assert(end.drop_first() =~= Seq::empty());
        assert(end[0] == WriteAction::Finish);
        assert(written(end.drop_first(), messages, next) == Seq::<char>::empty());
        assert(written(end, messages, next) == Seq::<char>::empty());
        assert(actions[0] == WriteAction::AskCause);
        assert(written(actions, messages, next) == Seq::<char>::empty());
        assert(messages.take(next) =~= messages);
        assert(joined(messages, ": "@) + Seq::<char>::empty() =~= joined(messages, ": "@));
    } else {
        let fewer = (left - 1) as nat;
        let from_separator = run(WriteAction::WriteSeparator, fewer, (n - 1) as nat);
        let from_cause = run(WriteAction::WriteCause, fewer, (n - 2) as nat);
        let rest = run(WriteAction::AskCause, fewer, (n - 3) as nat);
        lemma_causes_are_written(messages, next + 1, (n - 3) as nat);
        assert(actions == seq![WriteAction::AskCause] + from_separator);
        assert(from_separator == seq![WriteAction::WriteSeparator] + from_cause);
        assert(from_cause == seq![WriteAction::WriteCause] + rest);
        assert(actions.drop_first() =~= from_separator);
        assert(from_separator.drop_first() =~= from_cause);
        assert(from_cause.drop_first() =~= rest);
        assert(actions.last() == rest.last());
        let more = messages.take(next + 1);
        assert(more.drop_last() =~= messages.take(next));
        assert(more.last() == messages[next]);
        assert(joined(more, ": "@) == joined(messages.take(next), ": "@) + ": "@ + messages[next]);
        assert(from_cause[0] == WriteAction::WriteCause);
        assert(written(from_cause, messages, next) == messages[next] + written(
            rest,
            messages,
            next + 1,
        ));
        assert(from_separator[0] == WriteAction::WriteSeparator);
        assert(written(from_separator, messages, next) == ": "@ + written(
            from_cause,
            messages,
            next,
        ));
        assert(actions[0] == WriteAction::AskCause);
        assert(written(actions, messages, next) == written(from_separator, messages, next));
        assert(joined(messages.take(next), ": "@) + written(actions, messages, next) =~= joined(
            more,
            ": "@,
        ) + written(rest, messages, next + 1));
    }
}

/// If every piece can be written, the pieces are together the displayed text of the
/// chain, and the writer finishes.
pub proof fn law_pieces_are_the_displayed_text<'a>(chain: ErrorChain<'a>, n: nat)
    requires
        n >= 3 * chain.error().messages().len(),
    ensures
        ({
            let messages = chain.error().messages();
            let actions = run(WriteAction::WriteError, (messages.len() - 1) as nat, n);
            &&& written(actions, messages, 1) == chain.text()
            &&& actions.last() == WriteAction::Finish
        }),
{
    let messages = chain.error().messages();
    assert(messages.len() >= 1);
    let causes = (messages.len() - 1) as nat;
    let actions = run(WriteAction::WriteError, causes, n);
    let rest = run(WriteAction::AskCause, causes, (n - 1) as nat);
    lemma_causes_are_written(messages, 1, (n - 1) as nat);
    assert(actions == seq![WriteAction::WriteError] + rest);
    assert(actions.drop_first() =~= rest);
    assert(actions.last() == rest.last());
    assert(joined(messages.take(1), ": "@) == messages[0]);
}

/// A piece that cannot be written ends the writing, and nothing is asked for after
/// the end.
pub proof fn law_a_failure_ends_the_writing(action: WriteAction, event: WriteEvent)
    requires
        action == WriteAction::WriteError || action == WriteAction::WriteSeparator || action
            == WriteAction::WriteCause,
    ensures
        advance(action, WriteEvent::Failed) == Some(WriteAction::Fail),
        advance(WriteAction::Fail, event) is None,
        advance(WriteAction::Finish, event) is None,
{
}

} // verus!
