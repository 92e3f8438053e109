//! What errors are shown as.

use vstd::prelude::*;
use crate::errors::{joined, ErrorChain, ErrorNode};
use crate::ledger::{decimal, digit, ConnectBlockErrorView};

verus! {

proof fn lemma_joined(first: Seq<char>, rest: Seq<Seq<char>>, separator: Seq<char>)
    requires
        rest.len() > 0,
    ensures
        joined(seq![first] + rest, separator) == first + separator + joined(rest, separator),
    decreases rest.len(),
{
    let all = seq![first] + rest;
    if rest.len() == 1 {
        assert(all.drop_last() =~= seq![first]);
        assert(joined(seq![first], separator) == first);
        assert(joined(rest, separator) == rest[0]);
    } else {
        lemma_joined(first, rest.drop_last(), separator);
        assert(all.drop_last() =~= seq![first] + rest.drop_last());
        assert(joined(all, separator) =~= first + separator + joined(rest, separator));
    }
}

/// An error without a cause is shown as its text; one with a cause as its text, a colon and
/// a space, and what the cause is shown as.
pub proof fn law_a_cause_follows_its_error<'a>(
    err: ErrorNode,
    chain: ErrorChain<'a>,
    cause: ErrorNode,
    cause_chain: ErrorChain<'a>,
)
    requires
        chain.error() == err,
        cause_chain.error() == cause,
    ensures
        err.source is None ==> chain.text() == err.message@,
        err.source == Some(Box::new(cause)) ==> chain.text() == err.message@ + ": "@
            + cause_chain.text(),
{
    if err.source is None {
        assert(err.messages() =~= seq![err.message@]);
    }
    if err.source == Some(Box::new(cause)) {
        assert(cause.messages().len() > 0);
        lemma_joined(err.message@, cause.messages(), ": "@);
    }
}

/// The number that decimal digits stand for.
pub open spec fn value_of(digits: Seq<char>) -> int
    decreases digits.len(),
{
    if digits.len() == 0 {
        0
    } else {
        10 * value_of(digits.drop_last()) + (digits.last() as int - 0x30)
    }
}

/// The digits of a number stand for it, are all between zero and nine, and do not begin with
/// a zero, but for zero itself.
pub proof fn law_digits_stand_for_their_number(n: nat)
    ensures
        value_of(decimal(n)) == n,
        decimal(n).len() > 0,
        n > 0 ==> decimal(n)[0] != '0',
        n == 0 ==> decimal(n).len() == 1,
        forall|i: int|
            0 <= i < decimal(n).len() ==> 0x30 <= #[trigger] decimal(n)[i] as int <= 0x39,
    decreases n,
{
    if n >= 10 {
        law_digits_stand_for_their_number(n / 10);
        assert(decimal(n).drop_last() =~= decimal(n / 10));
        assert(decimal(n).last() == digit((n % 10) as int));
        assert(decimal(n)[0] == decimal(n / 10)[0]);
        assert forall|i: int| 0 <= i < decimal(n).len() implies 0x30 <= #[trigger] decimal(
            n,
        )[i] as int <= 0x39 by {
            if i < decimal(n / 10).len() {
                assert(decimal(n)[i] == decimal(n / 10)[i]);
            }
        }
    } else {
        assert(decimal(n).drop_last() =~= Seq::empty());
        assert(value_of(Seq::empty()) == 0);
    }
}

/// What is said of each reason for which a block is rejected.
pub proof fn law_what_is_said_of_a_rejected_block(reason: Seq<char>, sidechain_number: u8)
    ensures
        ConnectBlockErrorView::ParseCoinbaseScript(reason).text()
            == "failed to parse coinbase script: "@ + reason,
        ConnectBlockErrorView::MultipleDrivechainOutputs.text()
            == "more than one OP_DRIVECHAIN output"@,
        ConnectBlockErrorView::InvalidDrivechainOutput.text() == "invalid OP_DRIVECHAIN output"@,
        (ConnectBlockErrorView::NoCtip { sidechain_number }).text() == "sidechain "@ + decimal(
            sidechain_number as nat,
        ) + " doesn't have ctip"@,
        (ConnectBlockErrorView::CtipNotSpent { sidechain_number }).text()
            == "old ctip wasn't spent for sidechain "@ + decimal(sidechain_number as nat),
{
}

} // verus!
