use vstd::prelude::*;

use crate::token::{minted, transferred, Address, Token};

verus! {

/// A successful mutation of a ledger.
pub enum Op {
    Mint { to: Address, amount: i128 },
    Transfer { from: Address, to: Address, amount: i128 },
}

/// `next` is what a successful `op` makes of `prev`.
pub open spec fn applied(prev: Token, next: Token, op: Op) -> bool {
    match op {
        Op::Mint { to, amount } => minted(prev, next, to, amount as int),
        Op::Transfer { from, to, amount } => transferred(prev, next, from, to, amount as int),
    }
}

/// Whether `a` is the receiver or the sender of `op`.
pub open spec fn involves(op: Op, a: Address) -> bool {
    match op {
        Op::Mint { to, .. } => to == a,
        Op::Transfer { from, to, .. } => from == a || to == a,
    }
}

/// The sum of a sequence of amounts.
pub open spec fn sum(amounts: Seq<int>) -> int
    decreases amounts.len(),
{
    if amounts.len() == 0 {
        0
    } else {
        sum(amounts.drop_last()) + amounts.last()
    }
}

/// Minting conserves value: starting from a ledger with no entries, after
/// the mints of `amounts[k]` to `tos[k]`, in order, the sum of all balances
/// equals the sum of the amounts minted.
pub proof fn lemma_mints_conserve(states: Seq<Token>, tos: Seq<Address>, amounts: Seq<int>)
    requires
        states.len() == amounts.len() + 1,
        tos.len() == amounts.len(),
        states[0].ledger().len() == 0,
        forall|k: int|
            0 <= k < amounts.len() ==> minted(#[trigger] states[k], states[k + 1], tos[k], amounts[k]),
    ensures
        states.last().supply() == sum(amounts),
    decreases amounts.len(),
{
    if amounts.len() == 0 {
        assert(states[0].supply() == 0);
    } else {
        let n = amounts.len() - 1;
        let head = states.drop_last();
        assert forall|k: int| 0 <= k < n implies minted(
            #[trigger] head[k],
            head[k + 1],
            tos.drop_last()[k],
            amounts.drop_last()[k],
        ) by {
            assert(minted(states[k], states[k + 1], tos[k], amounts[k]));
        }
        lemma_mints_conserve(head, tos.drop_last(), amounts.drop_last());
        assert(minted(states[n], states[n + 1], tos[n], amounts[n]));
    }
}

/// A transfer keeps the sum of the balances of its two accounts, and the sum
/// of all balances.
pub proof fn lemma_transfer_conserves(prev: Token, next: Token, from: Address, to: Address, amount: int)
    requires
        transferred(prev, next, from, to, amount),
    ensures
        next.balance_of(from) + next.balance_of(to) == prev.balance_of(from) + prev.balance_of(to),
        next.supply() == prev.supply(),
{
    assert(next.balance_of(from) == if from == to {
        prev.balance_of(from)
    } else {
        prev.balance_of(from) - amount
    });
    assert(next.balance_of(to) == if from == to {
        prev.balance_of(to)
    } else {
        prev.balance_of(to) + amount
    });
}

/// An account that no mint or transfer names keeps a zero balance: starting
/// from a ledger where every balance is zero, after the successful
/// operations `ops`, in order, the balance of `a` is still zero at every step.
pub proof fn lemma_untouched_stays_zero(states: Seq<Token>, ops: Seq<Op>, a: Address)
    requires
        states.len() == ops.len() + 1,
        forall|b: Address| #[trigger] states[0].balance_of(b) == 0,
        forall|k: int| 0 <= k < ops.len() ==> applied(#[trigger] states[k], states[k + 1], ops[k]),
        forall|k: int| 0 <= k < ops.len() ==> !involves(#[trigger] ops[k], a),
    ensures
        forall|k: int| 0 <= k < states.len() ==> #[trigger] states[k].balance_of(a) == 0,
    decreases ops.len(),
{
    if ops.len() > 0 {
        let n = ops.len() - 1;
        let head = states.drop_last();
        assert forall|k: int| 0 <= k < n implies applied(#[trigger] head[k], head[k + 1], ops.drop_last()[k]) by {
            assert(applied(states[k], states[k + 1], ops[k]));
        }
        assert forall|k: int| 0 <= k < n implies !involves(#[trigger] ops.drop_last()[k], a) by {
            assert(!involves(ops[k], a));
        }
        assert(head[0] == states[0]);
        lemma_untouched_stays_zero(head, ops.drop_last(), a);
        assert(applied(states[n], states[n + 1], ops[n]));
        assert(!involves(ops[n], a));
        assert(head[n] == states[n]);
        assert forall|k: int| 0 <= k < states.len() implies #[trigger] states[k].balance_of(a) == 0 by {
            if k < states.len() - 1 {
                assert(head[k] == states[k]);
            }
        }
    }
}

} // verus!
