//! The balances of the mirrored token and the proportional rebase over them.
use vstd::prelude::*;
use crate::event::RebaseError;
use crate::muldiv::mul_div;
use vstd::arithmetic::div_mod::lemma_fundamental_div_mod;

verus! {

/// What the holder of `b` receives or gives up when the supply moves by `d` from `s`:
/// `floor(b * d / s)`, and nothing where the supply is zero.
pub open spec fn share(b: int, d: int, s: int) -> int {
    if s <= 0 {
        0
    } else {
        b * d / s
    }
}

/// A balance after the supply moves from `s` to `t`. A decrease that would take
/// more than the balance leaves zero.
pub open spec fn rebased_balance(b: u128, s: u128, t: u128) -> int {
    if t >= s {
        b + share(b as int, t - s, s as int)
    } else if share(b as int, s - t, s as int) >= b {
        0
    } else {
        b - share(b as int, s - t, s as int)
    }
}

/// Every new balance fits in 128 bits.
pub open spec fn rebase_fits(bal: Seq<u128>, s: u128, t: u128) -> bool {
    forall|i: int| 0 <= i < bal.len() ==> #[trigger] rebased_balance(bal[i], s, t) <= u128::MAX
}

/// All balances after the supply moves from `s` to `t`.
pub open spec fn rebased(bal: Seq<u128>, s: u128, t: u128) -> Seq<u128> {
    Seq::new(bal.len(), |i: int| rebased_balance(bal[i], s, t) as u128)
}

/// The new value of one balance, or `None` where it does not fit.
pub fn rebase_balance(b: u128, s: u128, t: u128) -> (r: Option<u128>)
    ensures
        r == (if rebased_balance(b, s, t) <= u128::MAX {
            Some(rebased_balance(b, s, t) as u128)
        } else {
            None::<u128>
        }),
{
    if s == 0 {
        return Some(b);
    }
    if t >= s {
        match mul_div(b, t - s, s) {
            Some(gain) => b.checked_add(gain),
            None => None,
        }
    } else {
        match mul_div(b, s - t, s) {
            Some(cut) => {
                if cut >= b {
                    Some(0)
                } else {
                    Some(b - cut)
                }
            },
            None => Some(0),
        }
    }
}

/// All new balances, or `ArithmeticOverflow` where one does not fit.
pub fn rebase_balances(bal: &Vec<u128>, s: u128, t: u128) -> (r: Result<Vec<u128>, RebaseError>)
    ensures
        r is Ok <==> rebase_fits(bal@, s, t),
        r is Ok ==> r->Ok_0@ == rebased(bal@, s, t),
        r is Err ==> r == Err::<Vec<u128>, RebaseError>(RebaseError::ArithmeticOverflow),
{
    let mut out: Vec<u128> = Vec::new();
    let mut i: usize = 0;
    while i < bal.len()
        invariant
            i <= bal@.len(),
            out@ =~= rebased(bal@, s, t).subrange(0, i as int),
            forall|k: int| 0 <= k < i ==> #[trigger] rebased_balance(bal@[k], s, t) <= u128::MAX,
        decreases bal@.len() - i,
    {
        match rebase_balance(bal[i], s, t) {
            Some(v) => out.push(v),
            None => {
                return Err(RebaseError::ArithmeticOverflow);
            },
        }
        i += 1;
    }
    assert(out@ =~= rebased(bal@, s, t));
    Ok(out)
}

/// The sum of the balances.
pub open spec fn sum(bal: Seq<u128>) -> int
    decreases bal.len(),
{
    if bal.len() == 0 {
        0
    } else {
        sum(bal.drop_last()) + bal.last()
    }
}

/// How many balances are not zero.
pub open spec fn nonzero_count(bal: Seq<u128>) -> int
    decreases bal.len(),
{
    if bal.len() == 0 {
        0
    } else {
        nonzero_count(bal.drop_last()) + if bal.last() == 0 {
            0int
        } else {
            1int
        }
    }
}

/// The sum of the rounded-down shares of a move of `d` from `s`.
pub open spec fn shares(bal: Seq<u128>, d: int, s: int) -> int
    decreases bal.len(),
{
    if bal.len() == 0 {
        0
    } else {
        shares(bal.drop_last(), d, s) + share(bal.last() as int, d, s)
    }
}

proof fn lemma_share_remainders(bal: Seq<u128>, d: int, s: int)
    requires
        s > 0,
        d >= 0,
    ensures
        0 <= d * sum(bal) - s * shares(bal, d, s) <= (s - 1) * nonzero_count(bal),
        nonzero_count(bal) >= 0,
        sum(bal) >= 0,
    decreases bal.len(),
{
    if bal.len() > 0 {
        let pre = bal.drop_last();
        let b = bal.last() as int;
        lemma_share_remainders(pre, d, s);
        lemma_fundamental_div_mod(b * d, s);
        let q = b * d / s;
        let m = (b * d) % s;
        assert(0 <= m < s);
        if b == 0 {
            assert(b * d == 0);
            assert(q == 0 && m == 0);
        }
        assert(d * sum(bal) - s * shares(bal, d, s) == (d * sum(pre) - s * shares(pre, d, s)) + m)
            by (nonlinear_arith)
            requires
                sum(bal) == sum(pre) + b,
                shares(bal, d, s) == shares(pre, d, s) + q,
                b * d == s * q + m,
        ;
        assert((s - 1) * nonzero_count(bal) == (s - 1) * nonzero_count(pre) + if b == 0 {
            0
        } else {
            s - 1
        }) by (nonlinear_arith)
            requires
                nonzero_count(bal) == nonzero_count(pre) + if b == 0 {
                    0int
                } else {
                    1int
                },
        ;
    }
}

proof fn lemma_element_below_sum(bal: Seq<u128>, i: int)
    requires
        0 <= i < bal.len(),
    ensures
        bal[i] <= sum(bal),
        sum(bal) >= 0,
    decreases bal.len(),
{
    let pre = bal.drop_last();
    if bal.len() > 1 {
        if i < bal.len() - 1 {
            lemma_element_below_sum(pre, i);
            assert(pre[i] == bal[i]);
        } else {
            lemma_element_below_sum(pre, 0);
        }
    } else {
        assert(sum(pre) == 0);
    }
}

proof fn lemma_positive_sum_has_nonzero(bal: Seq<u128>)
    requires
        sum(bal) > 0,
    ensures
        nonzero_count(bal) >= 1,
    decreases bal.len(),
{
    let pre = bal.drop_last();
    if bal.last() == 0 {
        lemma_positive_sum_has_nonzero(pre);
    } else if pre.len() > 0 {
        lemma_nonzero_count_nonnegative(pre);
    }
}

proof fn lemma_nonzero_count_nonnegative(bal: Seq<u128>)
    ensures
        nonzero_count(bal) >= 0,
    decreases bal.len(),
{
    if bal.len() > 0 {
        lemma_nonzero_count_nonnegative(bal.drop_last());
    }
}

proof fn lemma_rebased_sum(bal: Seq<u128>, s: u128, t: u128)
    requires
        s > 0,
        forall|i: int| 0 <= i < bal.len() ==> bal[i] <= s,
    ensures
        rebase_fits(bal, s, t),
        t >= s ==> sum(rebased(bal, s, t)) == sum(bal) + shares(bal, t - s, s as int),
        t < s ==> sum(rebased(bal, s, t)) == sum(bal) - shares(bal, s - t, s as int),
    decreases bal.len(),
{
    assert forall|i: int| 0 <= i < bal.len() implies #[trigger] rebased_balance(bal[i], s, t)
        <= u128::MAX && (t < s ==> share(bal[i] as int, s - t, s as int) <= bal[i]) by {
        let b = bal[i] as int;
        if t >= s {
            let d = t - s;
            assert(b * d / (s as int) <= d) by (nonlinear_arith)
                requires
                    0 <= b <= s,
                    d >= 0,
                    s > 0,
            ;
        } else {
            let d = s - t;
            assert(b * d / (s as int) <= b) by (nonlinear_arith)
                requires
                    0 <= b,
                    0 <= d <= s,
                    s > 0,
            ;
        }
    }
    if bal.len() > 0 {
        let pre = bal.drop_last();
        lemma_rebased_sum(pre, s, t);
        assert(rebased(bal, s, t).drop_last() =~= rebased(pre, s, t));
    }
}

/// A rebased balance is never negative, however large the decrease.
pub proof fn lemma_rebased_nonnegative(b: u128, s: u128, t: u128)
    ensures
        rebased_balance(b, s, t) >= 0,
        t < s ==> rebased_balance(b, s, t) <= b,
{
    if s > 0 {
        let d = if t >= s { t - s } else { s - t };
        assert(b as int * d / (s as int) >= 0) by (nonlinear_arith)
            requires
                b >= 0,
                d >= 0,
                s > 0,
        ;
    }
}

/// Supply conservation with bounded drift: when the balances add up to the
/// total `s > 0`, a rebase to `t` fits, and the new balances add up to `t`
/// give or take fewer than `n`, the number of nonzero balances: they fall
/// short of `t` when the supply grows and exceed it when it shrinks.
pub proof fn lemma_supply_drift(bal: Seq<u128>, s: u128, t: u128)
    requires
        sum(bal) == s,
        s > 0,
    ensures
        rebase_fits(bal, s, t),
        nonzero_count(bal) >= 1,
        t >= s ==> t - (nonzero_count(bal) - 1) <= sum(rebased(bal, s, t)) <= t,
        t < s ==> t <= sum(rebased(bal, s, t)) <= t + (nonzero_count(bal) - 1),
{
    assert forall|i: int| 0 <= i < bal.len() implies bal[i] <= s by {
        lemma_element_below_sum(bal, i);
    }
    lemma_rebased_sum(bal, s, t);
    let d: int = if t >= s { t - s } else { s - t };
    lemma_share_remainders(bal, d, s as int);
    lemma_positive_sum_has_nonzero(bal);
    let n = nonzero_count(bal);
    let f = shares(bal, d, s as int);
    assert(0 <= d - f < n) by (nonlinear_arith)
        requires
            0 <= d * s - s * f <= (s - 1) * n,
            s > 0,
            n >= 1,
    ;
}

/// The same law on a ledger: when its balances add up to its recorded total,
/// a rebase to `t` succeeds, records `t` exactly, and leaves balances that add
/// up to `t` give or take fewer than the number of nonzero balances.
pub proof fn lemma_ledger_drift(before: Ledger, after: Ledger, t: u128)
    requires
        before.wf(),
        sum(before.balances()) == before.total(),
        before.total() > 0,
        after.balances() == rebased(before.balances(), before.total(), t),
        after.total() == t,
    ensures
        rebase_fits(before.balances(), before.total(), t),
        after.total() == t,
        t - (nonzero_count(before.balances()) - 1) <= sum(after.balances()) <= t + (
        nonzero_count(before.balances()) - 1),
{
    lemma_supply_drift(before.balances(), before.total(), t);
}

/// Why a token operation was turned down.
#[derive(Debug, Clone, Copy, PartialEq, Eq, Structural)]
pub enum TokenError {
    /// The caller may not do this.
    Unauthorized,
    /// The operation is paused.
    Paused,
    /// Exactly one unit of the native currency must be attached.
    RequiresOneYocto,
    /// The account is not registered.
    NotRegistered,
    /// The account holds less than the amount.
    InsufficientBalance,
    /// The recipient is not a valid account identifier.
    InvalidRecipient,
    /// A balance or the total supply would leave the 128-bit range.
    ArithmeticOverflow,
}

/// The balances held, by account, with the recorded total supply.
pub struct Ledger {
    accounts: Vec<String>,
    balances: Vec<u128>,
    total_supply: u128,
}

impl Ledger {
    /// The account identifiers, in the order in which they were registered.
    pub closed spec fn ids(&self) -> Seq<Seq<char>> {
        Seq::new(self.accounts@.len(), |i: int| self.accounts@[i]@)
    }

    /// The balances, in the order of `ids`.
    pub closed spec fn balances(&self) -> Seq<u128> {
        self.balances@
    }

    pub closed spec fn total(&self) -> u128 {
        self.total_supply
    }

    /// One balance per account, and no account twice.
    pub open spec fn wf(&self) -> bool {
        &&& self.ids().len() == self.balances().len()
        &&& forall|i: int, j: int|
            0 <= i < j < self.ids().len() ==> #[trigger] self.ids()[i] != #[trigger] self.ids()[j]
    }

    /// The position of an account, if it is registered.
    pub open spec fn index_of(&self, id: Seq<char>) -> Option<int> {
        if exists|i: int| 0 <= i < self.ids().len() && self.ids()[i] == id {
            Some(choose|i: int| 0 <= i < self.ids().len() && self.ids()[i] == id)
        } else {
            None
        }
    }

    /// The balance of an account; zero for one that is not registered.
    pub open spec fn balance_of_spec(&self, id: Seq<char>) -> u128 {
        match self.index_of(id) {
            Some(i) => self.balances()[i],
            None => 0,
        }
    }

    /// An empty ledger.
    pub fn new() -> (r: Self)
        ensures
            r.wf(),
            r.ids().len() == 0,
            r.total() == 0,
    {
        Ledger { accounts: Vec::new(), balances: Vec::new(), total_supply: 0 }
    }

    /// The recorded total supply.
    pub fn total_supply(&self) -> (r: u128)
        ensures
            r == self.total(),
    {
        self.total_supply
    }

    fn find(&self, id: &String) -> (r: Option<usize>)
        requires
            self.wf(),
        ensures
            r.is_some() ==> r.unwrap() < self.ids().len() && self.ids()[r.unwrap() as int] == id@,
            r.is_none() ==> forall|i: int| 0 <= i < self.ids().len() ==> self.ids()[i] != id@,
            self.index_of(id@) == (match r {
                Some(i) => Some(i as int),
                None => None::<int>,
            }),
    {
        let mut i: usize = 0;
        while i < self.accounts.len()
            invariant
                i <= self.accounts@.len(),
                self.wf(),
                forall|k: int| 0 <= k < i ==> self.ids()[k] != id@,
            decreases self.accounts@.len() - i,
        {
            if self.accounts[i] == *id {
                assert(self.ids()[i as int] == id@);
                let ghost c = choose|k: int| 0 <= k < self.ids().len() && self.ids()[k] == id@;
                assert(c == i) by {
                    if c != i as int {
                        if c < i {
                            assert(self.ids()[c] != self.ids()[i as int]);
                        } else {
                            assert(self.ids()[i as int] != self.ids()[c]);
                        }
                    }
                }
                return Some(i);
            }
            i += 1;
        }
        None
    }

    /// The balance of an account; zero for one that is not registered.
    pub fn balance_of(&self, id: &String) -> (r: u128)
        requires
            self.wf(),
        ensures
            r == self.balance_of_spec(id@),
    {
        match self.find(id) {
            Some(i) => self.balances[i],
            None => 0,
        }
    }

    /// Adds `amount` to an account, registering it if needed, and to the total;
    /// `ArithmeticOverflow`, with nothing changed, where either would not fit.
    pub fn deposit(&mut self, id: &String, amount: u128) -> (r: Result<(), TokenError>)
        requires
            old(self).wf(),
        ensures
            final(self).wf(),
            r is Ok <==> old(self).balance_of_spec(id@) + amount <= u128::MAX
                && old(self).total() + amount <= u128::MAX,
            r is Ok ==> final(self).index_of(id@) is Some,
            r is Ok ==> final(self).balance_of_spec(id@) == old(self).balance_of_spec(id@) + amount
                && final(self).total() == old(self).total() + amount
                && forall|o: Seq<char>| o != id@ ==> #[trigger] final(self).balance_of_spec(o)
                == old(self).balance_of_spec(o),
            r is Err ==> *final(self) == *old(self) && r == Err::<(), TokenError>(
                TokenError::ArithmeticOverflow,
            ),
    {
        if self.total_supply > u128::MAX - amount {
            return Err(TokenError::ArithmeticOverflow);
        }
        let ghost before = *self;
        match self.find(id) {
            Some(i) => {
                if self.balances[i] > u128::MAX - amount {
                    return Err(TokenError::ArithmeticOverflow);
                }
                let nb = self.balances[i] + amount;
                self.balances.set(i, nb);
                self.total_supply = self.total_supply + amount;
                assert(self.ids() =~= before.ids());
                assert forall|o: Seq<char>| o != id@ implies #[trigger] self.balance_of_spec(o)
                    == before.balance_of_spec(o) by {
                    assert(self.index_of(o) == before.index_of(o));
                }
                assert(self.index_of(id@) == before.index_of(id@));
            },
            None => {
                self.accounts.push(id.clone());
                self.balances.push(amount);
                self.total_supply = self.total_supply + amount;
                assert(self.ids() =~= before.ids().push(id@));
                let ghost n = before.ids().len();
                assert(self.ids()[n as int] == id@);
                assert(self.index_of(id@) == Some(n as int));
                assert forall|o: Seq<char>| o != id@ implies #[trigger] self.balance_of_spec(o)
                    == before.balance_of_spec(o) by {
                    if before.index_of(o) is Some {
                        let k = before.index_of(o).unwrap();
                        assert(self.ids()[k] == o);
                    }
                    assert(self.index_of(o) == before.index_of(o));
                }
            },
        }
        Ok(())
    }

    /// Takes `amount` from a registered account and from the total.
    pub fn withdraw(&mut self, id: &String, amount: u128) -> (r: Result<(), TokenError>)
        requires
            old(self).wf(),
        ensures
            final(self).wf(),
            old(self).index_of(id@) is None ==> r == Err::<(), TokenError>(TokenError::NotRegistered),
            old(self).index_of(id@) is Some ==> (r == if old(self).balance_of_spec(id@) < amount {
                Err::<(), TokenError>(TokenError::InsufficientBalance)
            } else if old(self).total() < amount {
                Err::<(), TokenError>(TokenError::ArithmeticOverflow)
            } else {
                Ok::<(), TokenError>(())
            }),
            r is Ok ==> final(self).balance_of_spec(id@) == old(self).balance_of_spec(id@) - amount
                && final(self).total() == old(self).total() - amount
                && forall|o: Seq<char>| o != id@ ==> #[trigger] final(self).balance_of_spec(o)
                == old(self).balance_of_spec(o),
            r is Err ==> *final(self) == *old(self),
    {
        let ghost before = *self;
        match self.find(id) {
            Some(i) => {
                if self.balances[i] < amount {
                    return Err(TokenError::InsufficientBalance);
                }
                if self.total_supply < amount {
                    return Err(TokenError::ArithmeticOverflow);
                }
                let nb = self.balances[i] - amount;
                self.balances.set(i, nb);
                self.total_supply = self.total_supply - amount;
                assert(self.ids() =~= before.ids());
                assert forall|o: Seq<char>| o != id@ implies #[trigger] self.balance_of_spec(o)
                    == before.balance_of_spec(o) by {
                    assert(self.index_of(o) == before.index_of(o));
                }
                assert(self.index_of(id@) == before.index_of(id@));
                Ok(())
            },
            None => Err(TokenError::NotRegistered),
        }
    }

    /// Moves the total supply to `target`, scaling every balance by the same
    /// ratio, rounding each change down; the total becomes `target` exactly.
    /// Where the total does not move nothing changes. `ArithmeticOverflow`,
    /// with nothing changed, where a new balance would not fit.
    pub fn rebase(&mut self, target: u128) -> (r: Result<(), RebaseError>)
        requires
            old(self).wf(),
        ensures
            final(self).wf(),
            final(self).ids() == old(self).ids(),
            target == old(self).total() ==> r is Ok && *final(self) == *old(self),
            r is Ok <==> rebase_fits(old(self).balances(), old(self).total(), target),
            r is Ok ==> final(self).balances() == rebased(
                old(self).balances(),
                old(self).total(),
                target,
            ) && final(self).total() == target,
            r is Err ==> *final(self) == *old(self) && r == Err::<(), RebaseError>(
                RebaseError::ArithmeticOverflow,
            ),
    {
        if target == self.total_supply {
            assert forall|i: int| 0 <= i < self.balances@.len() implies #[trigger] rebased_balance(
                self.balances@[i],
                target,
                target,
            ) <= u128::MAX by {
                let b = self.balances@[i] as int;
                assert(b * 0 == 0) by (nonlinear_arith);
            }
            return Ok(());
        }
        match rebase_balances(&self.balances, self.total_supply, target) {
            Ok(nb) => {
                self.balances = nb;
                self.total_supply = target;
                Ok(())
            },
            Err(e) => Err(e),
        }
    }

    /// The registered accounts, in order of registration.
    pub fn account_ids(&self) -> (r: Vec<String>)
        ensures
            r@.len() == self.ids().len(),
            forall|i: int| 0 <= i < r@.len() ==> #[trigger] r@[i]@ == self.ids()[i],
    {
        let mut r: Vec<String> = Vec::new();
        let mut i: usize = 0;
        while i < self.accounts.len()
            invariant
                i <= self.accounts@.len(),
                r@.len() == i,
                forall|k: int| 0 <= k < i ==> #[trigger] r@[k]@ == self.ids()[k],
            decreases self.accounts@.len() - i,
        {
            r.push(self.accounts[i].clone());
            i += 1;
        }
        r
    }
}

} // verus!
