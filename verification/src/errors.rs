//! Utility types for errors.

use vstd::prelude::*;
use vstd::string::*;

verus! {

/// What displaying an error reads of it: its own text, and the error that
/// caused it.
pub struct ErrorNode {
    pub message: String,
    pub source: Option<Box<ErrorNode>>,
}

impl ErrorNode {
    /// The texts of this error and of its causes, outermost first.
    pub open spec fn messages(&self) -> Seq<Seq<char>>
        decreases self,
    {
        match self.source {
            Some(cause) => seq![self.message@] + cause.messages(),
            None => seq![self.message@],
        }
    }
}

/// The texts in `parts`, each followed by `separator` but the last.
pub open spec fn joined(parts: Seq<Seq<char>>, separator: Seq<char>) -> Seq<char>
    decreases parts.len(),
{
    if parts.len() == 0 {
        Seq::empty()
    } else if parts.len() == 1 {
        parts[0]
    } else {
        joined(parts.drop_last(), separator) + separator + parts.last()
    }
}

/// Displays an error with its causes.
pub struct ErrorChain<'a>(&'a ErrorNode);

impl<'a> ErrorChain<'a> {
    /// The error whose chain of causes is displayed.
    pub closed spec fn error(&self) -> ErrorNode {
        *self.0
    }

    /// The displayed text: the error and its causes, outermost first, parted
    /// by a colon and a space.
    pub open spec fn text(&self) -> Seq<char> {
        joined(self.error().messages(), ": "@)
    }

    pub fn new(err: &'a ErrorNode) -> (chain: Self)
        ensures
            chain.error() == *err,
    {
        ErrorChain(err)
    }

    /// Appends the displayed text to `f`.
    pub fn fmt(&self, f: &mut String)
        ensures
            final(f)@ == old(f)@ + self.text(),
    {
        let ghost start = f@;
        let ghost all = self.0.messages();
        f.append(self.0.message.as_str());
        let mut source: &Option<Box<ErrorNode>> = &self.0.source;
        let ghost mut shown = seq![self.0.message@];
        proof {
            assert(joined(shown, ": "@) == self.0.message@);
            assert(f@ =~= start + joined(shown, ": "@));
            assert(all =~= shown + rest(*source));
        }
        loop
            invariant
                f@ == start + joined(shown, ": "@),
                all == shown + rest(*source),
                shown.len() >= 1,
            ensures
                *source is None,
            decreases *source,
        {
            match source {
                None => {
                    break;
                },
                Some(cause) => {
                    f.append(": ");
                    f.append(cause.message.as_str());
                    proof {
                        let next = shown.push(cause.message@);
                        assert(next.drop_last() =~= shown);
                        assert(start + joined(shown, ": "@) + ": "@ + cause.message@ =~= start
                            + joined(next, ": "@));
                        assert(all =~= next + rest(cause.source));
                        shown = next;
                    }
                    source = &cause.source;
                },
            }
        }
        proof {
            assert(all =~= shown);
        }
    }

    /// The displayed text.
    pub fn to_string(&self) -> (text: String)
        ensures
            text@ == self.text(),
    {
        let mut text = String::new();
        self.fmt(&mut text);
        proof {
            assert(Seq::<char>::empty() + self.text() =~= self.text());
        }
        text
    }
}

/// The texts of the causes from `source` on.
spec fn rest(source: Option<Box<ErrorNode>>) -> Seq<Seq<char>> {
    match source {
        Some(cause) => cause.messages(),
        None => Seq::empty(),
    }
}

/// Transparent wrapper around an error that is split by how its inner error is
/// split. It is primarily useful when boxed.
#[derive(Debug)]
pub struct Splittable<E>(pub E);

impl<E> vstd::std_specs::convert::FromSpecImpl<E> for Splittable<E> {
    open spec fn obeys_from_spec() -> bool {
        true
    }

    open spec fn from_spec(err: E) -> Self {
        Splittable(err)
    }
}

impl<E> From<E> for Splittable<E> {
    fn from(err: E) -> (wrapped: Self) {
        Splittable(err)
    }
}

impl<E> Splittable<E> {
    /// Whether the error is fatal, as `is_fatal` decides of the inner error.
    pub fn is_fatal<F: Fn(&E) -> bool>(&self, is_fatal: F) -> (fatal: bool)
        requires
            is_fatal.requires((&self.0,)),
        ensures
            is_fatal.ensures((&self.0,), fatal),
    {
        is_fatal(&self.0)
    }

    /// Splits into an informational or a fatal error, as `split` does the inner
    /// error.
    pub fn split<Jfyi, Fatal, F: FnOnce(E) -> Result<Jfyi, Fatal>>(self, split: F) -> (parts:
        Result<Jfyi, Fatal>)
        requires
            split.requires((self.0,)),
        ensures
            split.ensures((self.0,), parts),
    {
        split(self.0)
    }

    /// `is_fatal` for an error in a box.
    pub fn boxed_is_fatal<F: Fn(&E) -> bool>(this: &Box<Self>, is_fatal: F) -> (fatal: bool)
        requires
            is_fatal.requires((&this.0,)),
        ensures
            is_fatal.ensures((&this.0,), fatal),
    {
        (**this).is_fatal(is_fatal)
    }

    /// `split` for an error in a box.
    pub fn boxed_split<Jfyi, Fatal, F: FnOnce(E) -> Result<Jfyi, Fatal>>(
        this: Box<Self>,
        split: F,
    ) -> (parts: Result<Jfyi, Fatal>)
        requires
            split.requires((this.0,)),
        ensures
            split.ensures((this.0,), parts),
    {
        (*this).split(split)
    }
}

impl Splittable<ErrorNode> {
    /// What is displayed of the wrapped error: the text and the cause of the inner
    /// error, as if it were not wrapped.
    pub open spec fn shown(&self) -> ErrorNode {
        ErrorNode { message: self.0.message, source: self.0.source }
    }

    /// What is displayed of the wrapped error.
    pub fn node(&self) -> (node: &ErrorNode)
        ensures
            *node == self.shown(),
            *node == self.0,
    {
        &self.0
    }
}

/// The chain of a wrapped error has the text of the chain of the error: the wrapper
/// adds no message of its own and repeats none.
pub proof fn law_wrapped_error_shows_the_same_chain<'a>(
    err: ErrorNode,
    chain: ErrorChain<'a>,
    wrapped: Splittable<ErrorNode>,
    wrapped_chain: ErrorChain<'a>,
)
    requires
        chain.error() == err,
        wrapped == Splittable(err),
        wrapped_chain.error() == wrapped.shown(),
    ensures
        wrapped_chain.text() == chain.text(),
{
}

} // verus!
