use vstd::prelude::*;

verus! {

/// An account identifier: an opaque number naming a party that can hold a
/// balance or authorize a call.
#[derive(Clone, Copy, Debug, PartialEq, Eq, Structural)]
pub struct Address {
    pub id: u64,
}

impl Address {
    /// The account numbered `id`.
    pub fn new(id: u64) -> (r: Address)
        ensures
            r.id == id,
    {
        Address { id }
    }
}

/// The ways a ledger operation can fail. A failed operation changes nothing.
#[derive(Clone, Copy, Debug, PartialEq, Eq, Structural)]
pub enum TokenError {
    /// The configuration was read before `initialize` ran.
    MissingConfiguration,
    /// The account whose approval the call needs did not authorize it.
    AuthorizationFailure,
    /// The sender holds less than the amount to transfer.
    InsufficientBalance,
    /// A new balance would not fit in a signed 128-bit integer.
    Overflow,
}

/// The configuration written by `initialize`.
#[derive(Clone, Debug)]
pub struct Config {
    pub admin: Address,
    pub decimal: u32,
    pub name: String,
    pub symbol: String,
}

/// One stored balance.
#[derive(Clone, Copy, Debug, PartialEq, Eq, Structural)]
pub struct Entry {
    pub owner: Address,
    pub amount: i128,
}

/// The balance of `a` in a list of entries: the amount of the last entry
/// owned by `a`, or 0 when there is none.
pub open spec fn balance_in(s: Seq<Entry>, a: Address) -> int
    decreases s.len(),
{
    if s.len() == 0 {
        0
    } else if s.last().owner == a {
        s.last().amount as int
    } else {
        balance_in(s.drop_last(), a)
    }
}

/// The sum of the amounts of all entries.
pub open spec fn total(s: Seq<Entry>) -> int
    decreases s.len(),
{
    if s.len() == 0 {
        0
    } else {
        total(s.drop_last()) + s.last().amount
    }
}

/// No two entries belong to the same account.
pub open spec fn owners_unique(s: Seq<Entry>) -> bool {
    forall|i: int, j: int|
        0 <= i < s.len() && 0 <= j < s.len() && i != j ==> s[i].owner != s[j].owner
}

/// Whether an integer fits in `i128`.
pub open spec fn fits_i128(v: int) -> bool {
    i128::MIN <= v <= i128::MAX
}

proof fn lemma_balance_at(s: Seq<Entry>, i: int)
    requires
        owners_unique(s),
        0 <= i < s.len(),
    ensures
        balance_in(s, s[i].owner) == s[i].amount,
    decreases s.len(),
{
    if i != s.len() - 1 {
        assert(s.last() == s[s.len() - 1]);
        assert(owners_unique(s.drop_last()));
        assert(s.drop_last()[i] == s[i]);
        lemma_balance_at(s.drop_last(), i);
    }
}

proof fn lemma_balance_absent(s: Seq<Entry>, a: Address)
    requires
        forall|i: int| 0 <= i < s.len() ==> s[i].owner != a,
    ensures
        balance_in(s, a) == 0,
    decreases s.len(),
{
    if s.len() > 0 {
        assert(s.last() == s[s.len() - 1]);
        assert forall|i: int| 0 <= i < s.drop_last().len() implies s.drop_last()[i].owner != a by {
            assert(s.drop_last()[i] == s[i]);
        }
        lemma_balance_absent(s.drop_last(), a);
    }
}

proof fn lemma_balance_update(s: Seq<Entry>, i: int, v: i128, b: Address)
    requires
        owners_unique(s),
        0 <= i < s.len(),
    ensures
        balance_in(s.update(i, Entry { owner: s[i].owner, amount: v }), b) == if b == s[i].owner {
            v as int
        } else {
            balance_in(s, b)
        },
    decreases s.len(),
{
    let e = Entry { owner: s[i].owner, amount: v };
    let t = s.update(i, e);
    if b == s[i].owner {
        assert(owners_unique(t));
        lemma_balance_at(t, i);
    } else if i == s.len() - 1 {
        assert(t.drop_last() =~= s.drop_last());
    } else {
        assert(owners_unique(s.drop_last()));
        assert(t.drop_last() =~= s.drop_last().update(i, e));
        assert(s.drop_last()[i] == s[i]);
        lemma_balance_update(s.drop_last(), i, v, b);
    }
}

proof fn lemma_total_update(s: Seq<Entry>, i: int, e: Entry)
    requires
        0 <= i < s.len(),
    ensures
        total(s.update(i, e)) == total(s) - s[i].amount + e.amount,
    decreases s.len(),
{
    let t = s.update(i, e);
    if i == s.len() - 1 {
        assert(t.drop_last() =~= s.drop_last());
    } else {
        assert(t.drop_last() =~= s.drop_last().update(i, e));
        lemma_total_update(s.drop_last(), i, e);
    }
}

proof fn lemma_push(s: Seq<Entry>, e: Entry, b: Address)
    ensures
        balance_in(s.push(e), b) == if b == e.owner {
            e.amount as int
        } else {
            balance_in(s, b)
        },
        total(s.push(e)) == total(s) + e.amount,
{
    assert(s.push(e).drop_last() =~= s);
}

/// Whether `a` is among the accounts that authorized the current call.
pub fn is_signed(signers: &[Address], a: Address) -> (r: bool)
    ensures
        r == signers@.contains(a),
{
    let mut i: usize = 0;
    while i < signers.len()
        invariant
            i <= signers@.len(),
            forall|j: int| 0 <= j < i ==> signers@[j] != a,
        decreases signers@.len() - i,
    {
        if signers[i] == a {
            assert(signers@[i as int] == a);
            return true;
        }
        i += 1;
    }
    false
}

/// The state of a token contract: its configuration, once initialized, and
/// one entry per account that has held a balance. An account without an
/// entry holds 0.
pub struct Token {
    config: Option<Config>,
    entries: Vec<Entry>,
}

/// The effect of a successful mint of `amount` to `to`: that account's
/// balance grows by `amount`, every other stays, and so does the
/// configuration.
pub open spec fn minted(prev: Token, next: Token, to: Address, amount: int) -> bool {
    &&& next.configuration() == prev.configuration()
    &&& forall|b: Address|
        #[trigger] next.balance_of(b) == prev.balance_of(b) + if b == to {
            amount
        } else {
            0
        }
    &&& next.supply() == prev.supply() + amount
}

/// The effect of a successful transfer. Between two distinct accounts, the
/// sender's balance falls by `amount` and the receiver's grows by it. A
/// transfer to oneself changes nothing. Every other balance, the sum of all
/// balances and the configuration stay.
pub open spec fn transferred(prev: Token, next: Token, from: Address, to: Address, amount: int) -> bool {
    &&& next.configuration() == prev.configuration()
    &&& forall|b: Address|
        #[trigger] next.balance_of(b) == if from == to {
            prev.balance_of(b)
        } else if b == to {
            prev.balance_of(to) + amount
        } else if b == from {
            prev.balance_of(from) - amount
        } else {
            prev.balance_of(b)
        }
    &&& next.supply() == prev.supply()
}

impl Token {
    /// The configuration, if `initialize` has run.
    pub closed spec fn configuration(self) -> Option<Config> {
        self.config
    }

    /// The stored entries.
    pub closed spec fn ledger(self) -> Seq<Entry> {
        self.entries@
    }

    /// Each account has at most one entry.
    pub closed spec fn wf(self) -> bool {
        owners_unique(self.entries@)
    }

    /// The balance of `a`: 0 for an account without an entry.
    pub open spec fn balance_of(self, a: Address) -> int {
        balance_in(self.ledger(), a)
    }

    /// The sum of all balances.
    pub open spec fn supply(self) -> int {
        total(self.ledger())
    }

    /// Whether the configured administrator is among `signers`.
    pub open spec fn admin_signed(self, signers: Seq<Address>) -> bool {
        &&& self.configuration() is Some
        &&& signers.contains(self.configuration()->Some_0.admin)
    }

    /// A contract with no configuration and no balances.
    pub fn new() -> (r: Token)
        ensures
            r.wf(),
            r.configuration() is None,
            r.ledger().len() == 0,
            r.supply() == 0,
            forall|a: Address| #[trigger] r.balance_of(a) == 0,
    {
        Token { config: None, entries: Vec::new() }
    }

    /// A contract with the given configuration and entries, as loaded from
    /// storage; `None` when two entries belong to the same account.
    pub fn restore(config: Option<Config>, entries: Vec<Entry>) -> (r: Option<Token>)
        ensures
            r is Some <==> owners_unique(entries@),
            r matches Some(t) ==> t.wf() && t.configuration() == config && t.ledger() == entries@,
    {
        let n = entries.len();
        let mut i: usize = 0;
        while i < n
            invariant
                n == entries@.len(),
                i <= n,
                forall|p: int, q: int|
                    0 <= p < i && 0 <= q < n && p != q ==> entries@[p].owner != entries@[q].owner,
            decreases n - i,
        {
            let mut j: usize = 0;
            while j < n
                invariant
                    n == entries@.len(),
                    i < n,
                    j <= n,
                    forall|p: int, q: int|
                        0 <= p < i && 0 <= q < n && p != q ==> entries@[p].owner != entries@[q].owner,
                    forall|q: int| 0 <= q < j && q != i ==> entries@[i as int].owner != entries@[q].owner,
                decreases n - j,
            {
                if j != i && entries[i].owner == entries[j].owner {
                    assert(!owners_unique(entries@));
                    return None;
                }
                j += 1;
            }
            i += 1;
        }
        Some(Token { config, entries })
    }

    /// Writes the configuration, replacing any earlier one. Balances stay.
    pub fn initialize(&mut self, admin: Address, decimal: u32, name: String, symbol: String)
        requires
            old(self).wf(),
        ensures
            final(self).wf(),
            final(self).configuration() == Some(Config { admin, decimal, name, symbol }),
            final(self).ledger() == old(self).ledger(),
    {
        self.config = Some(Config { admin, decimal, name, symbol });
    }

    /// The index of the entry of `a`, if it has one.
    fn find(&self, a: Address) -> (r: Option<usize>)
        ensures
            r matches Some(i) ==> i < self.entries@.len() && self.entries@[i as int].owner == a,
            r is None ==> forall|i: int| 0 <= i < self.entries@.len() ==> self.entries@[i].owner != a,
    {
        let mut i: usize = 0;
        while i < self.entries.len()
            invariant
                i <= self.entries@.len(),
                forall|j: int| 0 <= j < i ==> self.entries@[j].owner != a,
            decreases self.entries@.len() - i,
        {
            if self.entries[i].owner == a {
                return Some(i);
            }
            i += 1;
        }
        None
    }

    /// The balance of `id`: 0 when it never held one.
    pub fn balance(&self, id: Address) -> (r: i128)
        requires
            self.wf(),
        ensures
            r == self.balance_of(id),
    {
        match self.find(id) {
            Some(i) => {
                proof {
                    lemma_balance_at(self.entries@, i as int);
                }
                self.entries[i].amount
            },
            None => {
                proof {
                    lemma_balance_absent(self.entries@, id);
                }
                0
            },
        }
    }

    /// Stores `v` as the balance of `a`.
    fn set_balance(&mut self, a: Address, v: i128)
        requires
            old(self).wf(),
        ensures
            final(self).wf(),
            final(self).configuration() == old(self).configuration(),
            forall|b: Address|
                #[trigger] final(self).balance_of(b) == if b == a {
                    v as int
                } else {
                    old(self).balance_of(b)
                },
            final(self).supply() == old(self).supply() - old(self).balance_of(a) + v,
    {
        let e = Entry { owner: a, amount: v };
        match self.find(a) {
            Some(i) => {
                proof {
                    let s = self.entries@;
                    lemma_balance_at(s, i as int);
                    lemma_total_update(s, i as int, e);
                    assert forall|b: Address| #[trigger]
                        balance_in(s.update(i as int, e), b) == if b == a {
                            v as int
                        } else {
                            balance_in(s, b)
                        } by {
                        lemma_balance_update(s, i as int, v, b);
                    }
                }
                self.entries.set(i, e);
            },
            None => {
                proof {
                    let s = self.entries@;
                    lemma_balance_absent(s, a);
                    assert forall|b: Address| #[trigger]
                        balance_in(s.push(e), b) == if b == a {
                            v as int
                        } else {
                            balance_in(s, b)
                        } by {
                        lemma_push(s, e, b);
                    }
                    lemma_push(s, e, a);
                    assert(owners_unique(s.push(e)));
                }
                self.entries.push(e);
            },
        }
    }

    /// Adds `amount` to the balance of `to`. The call must be authorized by
    /// the administrator, that is the administrator is among `signers`. A
    /// negative amount is accepted and lowers the balance.
    pub fn mint(&mut self, to: Address, amount: i128, signers: &[Address]) -> (r: Result<(), TokenError>)
        requires
            old(self).wf(),
        ensures
            final(self).wf(),
            old(self).configuration() is None ==> r == Err::<(), TokenError>(TokenError::MissingConfiguration),
            old(self).configuration() is Some && !old(self).admin_signed(signers@)
                ==> r == Err::<(), TokenError>(TokenError::AuthorizationFailure),
            old(self).admin_signed(signers@) && !fits_i128(old(self).balance_of(to) + amount)
                ==> r == Err::<(), TokenError>(TokenError::Overflow),
            old(self).admin_signed(signers@) && fits_i128(old(self).balance_of(to) + amount)
                ==> r is Ok && minted(*old(self), *final(self), to, amount as int),
            r is Err ==> *final(self) == *old(self),
    {
        let admin = match &self.config {
            Some(c) => c.admin,
            None => {
                return Err(TokenError::MissingConfiguration);
            },
        };
        if !is_signed(signers, admin) {
            return Err(TokenError::AuthorizationFailure);
        }
        let b = self.balance(to);
        match b.checked_add(amount) {
            Some(v) => {
                self.set_balance(to, v);
                Ok(())
            },
            None => Err(TokenError::Overflow),
        }
    }

    /// Moves `amount` from `from` to `to`. The call must be authorized by
    /// `from`, and `from` must hold at least `amount`. A transfer to oneself
    /// then succeeds and changes nothing.
    pub fn transfer(&mut self, from: Address, to: Address, amount: i128, signers: &[Address]) -> (r: Result<
        (),
        TokenError,
    >)
        requires
            old(self).wf(),
        ensures
            final(self).wf(),
            !signers@.contains(from) ==> r == Err::<(), TokenError>(TokenError::AuthorizationFailure),
            signers@.contains(from) && old(self).balance_of(from) < amount
                ==> r == Err::<(), TokenError>(TokenError::InsufficientBalance),
            signers@.contains(from) && old(self).balance_of(from) >= amount && from != to && !(fits_i128(
                old(self).balance_of(from) - amount,
            ) && fits_i128(old(self).balance_of(to) + amount))
                ==> r == Err::<(), TokenError>(TokenError::Overflow),
            signers@.contains(from) && old(self).balance_of(from) >= amount && (from == to || (fits_i128(
                old(self).balance_of(from) - amount,
            ) && fits_i128(old(self).balance_of(to) + amount)))
                ==> r is Ok && transferred(*old(self), *final(self), from, to, amount as int),
            r is Err ==> *final(self) == *old(self),
    {
        if !is_signed(signers, from) {
            return Err(TokenError::AuthorizationFailure);
        }
        let from_balance = self.balance(from);
        if from_balance < amount {
            return Err(TokenError::InsufficientBalance);
        }
        if from == to {
            return Ok(());
        }
        let to_balance = self.balance(to);
        let new_from = match from_balance.checked_sub(amount) {
            Some(v) => v,
            None => {
                return Err(TokenError::Overflow);
            },
        };
        let new_to = match to_balance.checked_add(amount) {
            Some(v) => v,
            None => {
                return Err(TokenError::Overflow);
            },
        };
        self.set_balance(from, new_from);
        self.set_balance(to, new_to);
        Ok(())
    }

    /// The display name, once initialized.
    pub fn name(&self) -> (r: Result<String, TokenError>)
        ensures
            self.configuration() is None ==> r == Err::<String, TokenError>(TokenError::MissingConfiguration),
            self.configuration() is Some ==> r is Ok && r->Ok_0@ == self.configuration()->Some_0.name@,
    {
        match &self.config {
            Some(c) => Ok(c.name.clone()),
            None => Err(TokenError::MissingConfiguration),
        }
    }

    /// The display symbol, once initialized.
    pub fn symbol(&self) -> (r: Result<String, TokenError>)
        ensures
            self.configuration() is None ==> r == Err::<String, TokenError>(TokenError::MissingConfiguration),
            self.configuration() is Some ==> r is Ok && r->Ok_0@ == self.configuration()->Some_0.symbol@,
    {
        match &self.config {
            Some(c) => Ok(c.symbol.clone()),
            None => Err(TokenError::MissingConfiguration),
        }
    }

    /// The decimal precision, once initialized.
    pub fn decimals(&self) -> (r: Result<u32, TokenError>)
        ensures
            self.configuration() is None ==> r == Err::<u32, TokenError>(TokenError::MissingConfiguration),
            self.configuration() is Some ==> r == Ok::<u32, TokenError>(self.configuration()->Some_0.decimal),
    {
        match &self.config {
            Some(c) => Ok(c.decimal),
            None => Err(TokenError::MissingConfiguration),
        }
    }
}

} // verus!
