//! The mirrored token: its controller, its pause flags, its metadata, and the
//! gates in front of minting, withdrawing and rebasing.
use vstd::prelude::*;
use crate::abi_word::{be_value, signed_value};
use crate::event::{
    decodable, word_at, EthDetailedRebaseEvent, RebaseError, RebaseEvent, REBASED_LOG_LEN,
};
use crate::account::{is_valid_account_id, valid_account_id};
use crate::ledger::{
    lemma_ledger_drift, lemma_rebased_nonnegative, nonzero_count, rebase_fits, rebased,
    rebased_balance, sum, Ledger, TokenError,
};

verus! {

/// A pause bit: paused withdrawals.
pub const PAUSE_WITHDRAW: u128 = 1;

/// A pause bit: paused rebases.
pub const PAUSE_REBASE: u128 = 2;

/// The token's metadata, as wallets read it.
#[derive(Debug, Clone, PartialEq, Eq)]
pub struct FungibleTokenMetadata {
    pub spec: String,
    pub name: String,
    pub symbol: String,
    pub icon: Option<String>,
    pub reference: Option<String>,
    pub reference_hash: Option<Vec<u8>>,
    pub decimals: u8,
}

/// Gas attached to the factory's `finish_withdraw` call: 50 TGas.
pub const FINISH_WITHDRAW_GAS: u64 = 50_000_000_000_000;

/// What a withdrawal asks of the host: send the `refund` unit back to
/// `refund_to`, and call the factory's `finish_withdraw` with `gas` to release
/// `amount` to `recipient` on the source chain.
#[derive(Debug, Clone, PartialEq, Eq)]
pub struct FinishWithdraw {
    pub factory: String,
    pub gas: u64,
    pub amount: u128,
    pub recipient: String,
    pub refund_to: String,
    pub refund: u128,
}

/// The epoch that a decodable log carries; both schemas hold it at the same place.
pub open spec fn log_epoch(b: Seq<u8>) -> int {
    be_value(word_at(b, 40)) as int
}

/// The supply asked for by an adjustment of `adj` from `s`; never below zero.
pub open spec fn adjusted_target(s: u128, adj: int) -> int {
    if s + adj < 0 {
        0
    } else {
        s + adj
    }
}

/// The supply that a decodable log asks for, the current supply being `s`.
pub open spec fn log_target(b: Seq<u8>, s: u128) -> int {
    if b.len() == REBASED_LOG_LEN {
        be_value(word_at(b, 72)) as int
    } else {
        adjusted_target(s, signed_value(word_at(b, 136)))
    }
}

/// Whether a rebase of `epoch` comes too late on `t`: not newer than the last one applied.
pub open spec fn is_stale(t: BridgeToken, epoch: u128) -> bool {
    t.last_epoch() is Some && epoch <= t.last_epoch().unwrap()
}

/// What a rebase of `epoch` to the supply `target` gives on `t`, once the
/// caller has passed the gates.
pub open spec fn rebase_outcome(t: BridgeToken, epoch: u128, target: int) -> Result<(), RebaseError> {
    if is_stale(t, epoch) {
        Err(RebaseError::StaleEpoch)
    } else if target > u128::MAX || !rebase_fits(
        t.ledger().balances(),
        t.ledger().total(),
        target as u128,
    ) {
        Err(RebaseError::ArithmeticOverflow)
    } else {
        Ok(())
    }
}

/// `n` is `o` after a rebase of `epoch` to `target`: every balance scaled, the
/// total set to `target`, the epoch recorded, and nothing else changed.
pub open spec fn rebased_from(o: BridgeToken, n: BridgeToken, epoch: u128, target: u128) -> bool {
    &&& n.ledger().ids() == o.ledger().ids()
    &&& n.ledger().balances() == rebased(o.ledger().balances(), o.ledger().total(), target)
    &&& n.ledger().total() == target
    &&& n.last_epoch() == Some(epoch)
    &&& n.controller_id() == o.controller_id()
    &&& n.paused_mask() == o.paused_mask()
    &&& n.metadata_view() == o.metadata_view()
    &&& target == o.ledger().total() ==> n.ledger() == o.ledger()
}

/// What the gates in front of a rebase say to `caller`.
pub open spec fn gate_outcome(t: BridgeToken, caller: Seq<char>) -> Result<(), RebaseError> {
    if caller != t.controller_id() {
        Err(RebaseError::Unauthorized)
    } else if t.is_paused_spec(PAUSE_REBASE) {
        Err(RebaseError::Paused)
    } else {
        Ok(())
    }
}

/// What applying the log `b` gives on `t` for `caller`.
pub open spec fn apply_outcome(t: BridgeToken, caller: Seq<char>, b: Seq<u8>) -> Result<(), RebaseError> {
    if gate_outcome(t, caller) is Err {
        gate_outcome(t, caller)
    } else if !decodable(b) {
        Err(RebaseError::MalformedLog)
    } else {
        rebase_outcome(t, log_epoch(b) as u128, log_target(b, t.ledger().total()))
    }
}

/// Epoch ordering: once a rebase of `epoch` is applied, the controller's next
/// log whose epoch is not newer is refused as stale, and so leaves the state
/// as that rebase set it.
pub proof fn lemma_stale_after_apply(
    o: BridgeToken,
    n: BridgeToken,
    epoch: u128,
    target: u128,
    b: Seq<u8>,
)
    requires
        rebased_from(o, n, epoch, target),
        !n.is_paused_spec(PAUSE_REBASE),
        decodable(b),
        log_epoch(b) <= epoch,
    ensures
        apply_outcome(n, n.controller_id(), b) == Err::<(), RebaseError>(RebaseError::StaleEpoch),
{
}

/// Supply conservation and non-negativity at the contract: after a rebase to
/// `target` of a token whose balances add up to its recorded total `s > 0`, the
/// recorded total is `target` exactly, the balances add up to `target` give or
/// take fewer than the number of nonzero balances, and none is negative.
pub proof fn lemma_token_rebase_drift(o: BridgeToken, n: BridgeToken, epoch: u128, target: u128)
    requires
        o.wf(),
        rebased_from(o, n, epoch, target),
        sum(o.ledger().balances()) == o.ledger().total(),
        o.ledger().total() > 0,
    ensures
        n.ledger().total() == target,
        target - (nonzero_count(o.ledger().balances()) - 1) <= sum(n.ledger().balances())
            <= target + (nonzero_count(o.ledger().balances()) - 1),
        forall|i: int|
            0 <= i < n.ledger().balances().len() ==> #[trigger] rebased_balance(
                o.ledger().balances()[i],
                o.ledger().total(),
                target,
            ) >= 0,
{
    lemma_ledger_drift(o.ledger(), n.ledger(), target);
    assert forall|i: int| 0 <= i < n.ledger().balances().len() implies #[trigger] rebased_balance(
        o.ledger().balances()[i],
        o.ledger().total(),
        target,
    ) >= 0 by {
        lemma_rebased_nonnegative(o.ledger().balances()[i], o.ledger().total(), target);
    }
}

/// `o`'s value where it is given, else `keep`.
pub open spec fn given_or(o: Option<String>, keep: Seq<char>) -> Seq<char> {
    match o {
        Some(v) => v@,
        None => keep,
    }
}

/// The state as it was stored before the icon was added to the metadata.
pub struct BridgeTokenV0 {
    pub controller: String,
    pub token: Ledger,
    pub name: String,
    pub symbol: String,
    pub reference: String,
    pub reference_hash: Vec<u8>,
    pub decimals: u8,
    pub paused: u128,
}

/// The token contract's state.
pub struct BridgeToken {
    controller: String,
    token: Ledger,
    name: String,
    symbol: String,
    reference: String,
    reference_hash: Vec<u8>,
    decimals: u8,
    icon: Option<String>,
    paused: u128,
    last_epoch: Option<u128>,
}

impl BridgeToken {
    pub closed spec fn controller_id(&self) -> Seq<char> {
        self.controller@
    }

    pub closed spec fn ledger(&self) -> Ledger {
        self.token
    }

    pub closed spec fn paused_mask(&self) -> u128 {
        self.paused
    }

    /// The epoch of the last rebase applied, if any.
    pub closed spec fn last_epoch(&self) -> Option<u128> {
        self.last_epoch
    }

    pub closed spec fn metadata_view(&self) -> (Seq<char>, Seq<char>, Seq<char>, Seq<u8>, u8, Option<Seq<char>>) {
        (
            self.name@,
            self.symbol@,
            self.reference@,
            self.reference_hash@,
            self.decimals,
            match self.icon {
                Some(i) => Some(i@),
                None => None,
            },
        )
    }

    pub open spec fn wf(&self) -> bool {
        self.ledger().wf()
    }

    pub open spec fn is_paused_spec(&self, flag: u128) -> bool {
        self.paused_mask() & flag != 0
    }

    /// A fresh token controlled by `controller`, with no balances and no metadata.
    pub fn new(controller: String) -> (r: Self)
        ensures
            r.wf(),
            r.controller_id() == controller@,
            r.ledger().ids().len() == 0,
            r.ledger().total() == 0,
            r.paused_mask() == 0,
            r.last_epoch() is None,
            r.metadata_view() == (
                Seq::<char>::empty(),
                Seq::<char>::empty(),
                Seq::<char>::empty(),
                Seq::<u8>::empty(),
                0u8,
                None::<Seq<char>>,
            ),
    {
        BridgeToken {
            controller,
            token: Ledger::new(),
            name: String::new(),
            symbol: String::new(),
            reference: String::new(),
            reference_hash: Vec::new(),
            decimals: 0,
            icon: None,
            paused: 0,
            last_epoch: None,
        }
    }

    /// Whether `caller` is the controller or the contract's own account.
    pub fn controller_or_self(&self, caller: &String, current_account: &String) -> (r: bool)
        ensures
            r == (caller@ == self.controller_id() || caller@ == current_account@),
    {
        *caller == self.controller || *caller == *current_account
    }

    /// Whether the operations under `flag` are paused.
    pub fn is_paused(&self, flag: u128) -> (r: bool)
        ensures
            r == self.is_paused_spec(flag),
    {
        self.paused & flag != 0
    }

    /// The pause mask.
    pub fn get_paused(&self) -> (r: u128)
        ensures
            r == self.paused_mask(),
    {
        self.paused
    }

    /// Replaces the pause mask; only the controller or the contract itself may.
    pub fn set_paused(&mut self, caller: &String, current_account: &String, paused: u128) -> (r:
        Result<(), TokenError>)
        ensures
            r is Ok <==> (caller@ == old(self).controller_id() || caller@ == current_account@),
            r is Ok ==> final(self).paused_mask() == paused && final(self).ledger() == old(self).ledger() && final(self).controller_id() == old(self).controller_id()
                && final(self).last_epoch() == old(self).last_epoch()
                && final(self).metadata_view() == old(self).metadata_view(),
            r is Err ==> *final(self) == *old(self) && r == Err::<(), TokenError>(
                TokenError::Unauthorized,
            ),
    {
        if !self.controller_or_self(caller, current_account) {
            return Err(TokenError::Unauthorized);
        }
        self.paused = paused;
        Ok(())
    }

    /// The recorded total supply.
    pub fn ft_total_supply(&self) -> (r: u128)
        ensures
            r == self.ledger().total(),
    {
        self.token.total_supply()
    }

    /// The balance of an account; zero for one that is not registered.
    pub fn ft_balance_of(&self, account_id: &String) -> (r: u128)
        requires
            self.wf(),
        ensures
            r == self.ledger().balance_of_spec(account_id@),
    {
        self.token.balance_of(account_id)
    }

    /// The registered accounts, in order of registration.
    pub fn accounts(&self) -> (r: Vec<String>)
        ensures
            r@.len() == self.ledger().ids().len(),
            forall|i: int| 0 <= i < r@.len() ==> #[trigger] r@[i]@ == self.ledger().ids()[i],
    {
        self.token.account_ids()
    }

    /// Credits `amount` to `account_id`, registering it if needed; controller only.
    pub fn mint(&mut self, caller: &String, account_id: &String, amount: u128) -> (r: Result<
        (),
        TokenError,
    >)
        requires
            old(self).wf(),
        ensures
            final(self).wf(),
            caller@ != old(self).controller_id() ==> r == Err::<(), TokenError>(
                TokenError::Unauthorized,
            ),
            caller@ == old(self).controller_id() ==> (r is Ok <==> old(self).ledger().balance_of_spec(
                account_id@,
            ) + amount <= u128::MAX && old(self).ledger().total() + amount <= u128::MAX),
            r is Ok ==> final(self).ledger().index_of(account_id@) is Some,
            r is Ok ==> final(self).ledger().balance_of_spec(account_id@) == old(self).ledger().balance_of_spec(account_id@) + amount && final(self).ledger().total() == old(self).ledger().total() + amount && forall|o: Seq<char>|
                o != account_id@ ==> #[trigger] final(self).ledger().balance_of_spec(o) == old(self).ledger().balance_of_spec(o),
            r is Ok ==> final(self).controller_id() == old(self).controller_id() && final(self).paused_mask() == old(self).paused_mask() && final(self).last_epoch() == old(self).last_epoch(),
            r is Err ==> *final(self) == *old(self),
    {
        if *caller != self.controller {
            return Err(TokenError::Unauthorized);
        }
        self.token.deposit(account_id, amount)
    }

    /// Burns `amount` from the caller's balance and returns what the host must
    /// do next: refund the attached unit and ask the factory to release the
    /// amount to `recipient`. Refused while withdrawals are paused, unless
    /// exactly one unit is attached, and where the recipient is not a valid
    /// account identifier.
    pub fn withdraw(
        &mut self,
        caller: &String,
        attached_deposit: u128,
        amount: u128,
        recipient: String,
    ) -> (r: Result<FinishWithdraw, TokenError>)
        requires
            old(self).wf(),
        ensures
            final(self).wf(),
            old(self).is_paused_spec(PAUSE_WITHDRAW) ==> r == Err::<FinishWithdraw, TokenError>(
                TokenError::Paused,
            ),
            !old(self).is_paused_spec(PAUSE_WITHDRAW) && attached_deposit != 1 ==> r == Err::<
                FinishWithdraw,
                TokenError,
            >(TokenError::RequiresOneYocto),
            !old(self).is_paused_spec(PAUSE_WITHDRAW) && attached_deposit == 1
                && !is_valid_account_id(recipient@) ==> r == Err::<FinishWithdraw, TokenError>(
                TokenError::InvalidRecipient,
            ),
            !old(self).is_paused_spec(PAUSE_WITHDRAW) && attached_deposit == 1 ==> (r is Ok <==> (
            is_valid_account_id(recipient@) && old(self).ledger().index_of(caller@) is Some
                && amount <= old(self).ledger().balance_of_spec(caller@) && amount <= old(self).ledger().total())),
            r is Ok ==> final(self).ledger().balance_of_spec(caller@) == old(self).ledger().balance_of_spec(caller@) - amount && final(self).ledger().total() == old(self).ledger().total() - amount && forall|o: Seq<char>|
                o != caller@ ==> #[trigger] final(self).ledger().balance_of_spec(o) == old(self).ledger().balance_of_spec(o),
            r is Ok ==> r->Ok_0.factory@ == old(self).controller_id() && r->Ok_0.gas
                == FINISH_WITHDRAW_GAS && r->Ok_0.amount == amount && r->Ok_0.recipient@
                == recipient@ && r->Ok_0.refund_to@ == caller@ && r->Ok_0.refund == 1,
            r is Ok ==> final(self).controller_id() == old(self).controller_id()
                && final(self).paused_mask() == old(self).paused_mask()
                && final(self).last_epoch() == old(self).last_epoch(),
            r is Err ==> *final(self) == *old(self),
    {
        if self.is_paused(PAUSE_WITHDRAW) {
            return Err(TokenError::Paused);
        }
        if attached_deposit != 1 {
            return Err(TokenError::RequiresOneYocto);
        }
        if !valid_account_id(recipient.as_str()) {
            return Err(TokenError::InvalidRecipient);
        }
        match self.token.withdraw(caller, amount) {
            Ok(()) => Ok(
                FinishWithdraw {
                    factory: self.controller.clone(),
                    gas: FINISH_WITHDRAW_GAS,
                    amount,
                    recipient,
                    refund_to: caller.clone(),
                    refund: 1,
                },
            ),
            Err(e) => Err(e),
        }
    }

    fn check_rebase_allowed(&self, caller: &String) -> (r: Result<(), RebaseError>)
        ensures
            r == gate_outcome(*self, caller@),
    {
        if *caller != self.controller {
            Err(RebaseError::Unauthorized)
        } else if self.is_paused(PAUSE_REBASE) {
            Err(RebaseError::Paused)
        } else {
            Ok(())
        }
    }

    fn is_stale_epoch(&self, epoch: u128) -> (r: bool)
        ensures
            r == is_stale(*self, epoch),
    {
        match self.last_epoch {
            Some(last) => epoch <= last,
            None => false,
        }
    }

    /// Applies a rebase of the given epoch to the balances: refused as stale
    /// unless the epoch is newer than the last one applied.
    fn ft_rebase(&mut self, epoch: u128, total_supply: u128) -> (r: Result<(), RebaseError>)
        requires
            old(self).wf(),
        ensures
            final(self).wf(),
            r == rebase_outcome(*old(self), epoch, total_supply as int),
            r is Ok ==> rebased_from(*old(self), *final(self), epoch, total_supply),
            r is Err ==> *final(self) == *old(self),
    {
        if self.is_stale_epoch(epoch) {
            return Err(RebaseError::StaleEpoch);
        }
        match self.token.rebase(total_supply) {
            Ok(()) => {
                self.last_epoch = Some(epoch);
                Ok(())
            },
            Err(e) => Err(e),
        }
    }

    /// Moves the total supply to `total_supply` for the rebase of `epoch`;
    /// controller only, refused while rebases are paused.
    pub fn rebase(&mut self, caller: &String, epoch: u128, total_supply: u128) -> (r: Result<
        (),
        RebaseError,
    >)
        requires
            old(self).wf(),
        ensures
            final(self).wf(),
            r == (if gate_outcome(*old(self), caller@) is Err {
                gate_outcome(*old(self), caller@)
            } else {
                rebase_outcome(*old(self), epoch, total_supply as int)
            }),
            r is Ok ==> rebased_from(*old(self), *final(self), epoch, total_supply),
            r is Err ==> *final(self) == *old(self),
    {
        match self.check_rebase_allowed(caller) {
            Ok(()) => {},
            Err(e) => {
                return Err(e);
            },
        }
        self.ft_rebase(epoch, total_supply)
    }

    /// The supply that a detailed rebase asks for: the current supply plus the
    /// requested adjustment, never below zero; `None` above the 128-bit range.
    pub fn adjusted_supply(&self, e: &EthDetailedRebaseEvent) -> (r: Option<u128>)
        ensures
            r == (if adjusted_target(self.ledger().total(), e.requested_adjustment as int)
                <= u128::MAX {
                Some(adjusted_target(self.ledger().total(), e.requested_adjustment as int) as u128)
            } else {
                None::<u128>
            }),
    {
        let s = self.token.total_supply();
        let adj = e.requested_adjustment;
        if adj >= 0 {
            s.checked_add(adj as u128)
        } else {
            let cut = (-(adj + 1)) as u128 + 1;
            if cut >= s {
                Some(0)
            } else {
                Some(s - cut)
            }
        }
    }

    /// Decodes a log of either schema and applies it: the controller only, not
    /// while rebases are paused, and only for an epoch newer than the last one.
    /// Every refusal leaves the state as it was.
    pub fn apply_rebase(&mut self, caller: &String, data: &[u8]) -> (r: Result<(), RebaseError>)
        requires
            old(self).wf(),
        ensures
            final(self).wf(),
            r == apply_outcome(*old(self), caller@, data@),
            caller@ != old(self).controller_id() ==> r == Err::<(), RebaseError>(
                RebaseError::Unauthorized,
            ),
            caller@ == old(self).controller_id() && old(self).is_paused_spec(PAUSE_REBASE) ==> r
                == Err::<(), RebaseError>(RebaseError::Paused),
            r is Ok ==> rebased_from(
                *old(self),
                *final(self),
                log_epoch(data@) as u128,
                log_target(data@, old(self).ledger().total()) as u128,
            ),
            r is Err ==> *final(self) == *old(self),
    {
        match self.check_rebase_allowed(caller) {
            Ok(()) => {},
            Err(e) => {
                return Err(e);
            },
        }
        let event = match RebaseEvent::from_log_entry_data(data) {
            Ok(e) => e,
            Err(e) => {
                return Err(e);
            },
        };
        let epoch = event.epoch();
        let target = match &event {
            RebaseEvent::Simplified(s) => Some(s.total_supply),
            RebaseEvent::Detailed(d) => self.adjusted_supply(d),
        };
        match target {
            Some(t) => self.ft_rebase(epoch, t),
            None => {
                if self.is_stale_epoch(epoch) {
                    Err(RebaseError::StaleEpoch)
                } else {
                    Err(RebaseError::ArithmeticOverflow)
                }
            },
        }
    }

    /// Replaces the metadata fields that are given; the controller or the
    /// contract itself only.
    pub fn set_metadata(
        &mut self,
        caller: &String,
        current_account: &String,
        name: Option<String>,
        symbol: Option<String>,
        reference: Option<String>,
        reference_hash: Option<Vec<u8>>,
        decimals: Option<u8>,
        icon: Option<String>,
    ) -> (r: Result<(), TokenError>)
        ensures
            r is Ok <==> (caller@ == old(self).controller_id() || caller@ == current_account@),
            r is Err ==> *final(self) == *old(self) && r == Err::<(), TokenError>(
                TokenError::Unauthorized,
            ),
            r is Ok ==> final(self).metadata_view() == (
                given_or(name, old(self).metadata_view().0),
                given_or(symbol, old(self).metadata_view().1),
                given_or(reference, old(self).metadata_view().2),
                match reference_hash {
                    Some(h) => h@,
                    None => old(self).metadata_view().3,
                },
                match decimals {
                    Some(d) => d,
                    None => old(self).metadata_view().4,
                },
                match icon {
                    Some(i) => Some(i@),
                    None => old(self).metadata_view().5,
                },
            ),
            r is Ok ==> final(self).ledger() == old(self).ledger() && final(self).controller_id()
                == old(self).controller_id() && final(self).paused_mask() == old(self).paused_mask()
                && final(self).last_epoch() == old(self).last_epoch(),
    {
        if !self.controller_or_self(caller, current_account) {
            return Err(TokenError::Unauthorized);
        }
        if let Some(v) = name {
            self.name = v;
        }
        if let Some(v) = symbol {
            self.symbol = v;
        }
        if let Some(v) = reference {
            self.reference = v;
        }
        if let Some(v) = reference_hash {
            self.reference_hash = v;
        }
        if let Some(v) = decimals {
            self.decimals = v;
        }
        if let Some(v) = icon {
            self.icon = Some(v);
        }
        Ok(())
    }

    /// The metadata as wallets read it, under the `ft-1.0.0` standard.
    pub fn ft_metadata(&self) -> (r: FungibleTokenMetadata)
        ensures
            r.spec@ == "ft-1.0.0"@,
            r.name@ == self.metadata_view().0,
            r.symbol@ == self.metadata_view().1,
            r.reference is Some && r.reference.unwrap()@ == self.metadata_view().2,
            r.reference_hash is Some && r.reference_hash.unwrap()@ == self.metadata_view().3,
            r.decimals == self.metadata_view().4,
            match r.icon {
                Some(i) => self.metadata_view().5 == Some(i@),
                None => self.metadata_view().5 is None,
            },
    {
        let icon = match &self.icon {
            Some(i) => Some(i.clone()),
            None => None,
        };
        FungibleTokenMetadata {
            spec: "ft-1.0.0".to_owned(),
            name: self.name.clone(),
            symbol: self.symbol.clone(),
            icon,
            reference: Some(self.reference.clone()),
            reference_hash: Some(self.reference_hash.clone()),
            decimals: self.decimals,
        }
    }

    /// The state of before the icon in the current layout.
    pub closed spec fn upgraded(obj: BridgeTokenV0) -> Self {
        BridgeToken {
            controller: obj.controller,
            token: obj.token,
            name: obj.name,
            symbol: obj.symbol,
            reference: obj.reference,
            reference_hash: obj.reference_hash,
            decimals: obj.decimals,
            icon: None,
            paused: obj.paused,
            last_epoch: None,
        }
    }

    /// The stored state of before the icon, with no icon and no epoch applied yet.
    pub fn from(obj: BridgeTokenV0) -> (r: Self)
        ensures
            r == Self::upgraded(obj),
            r.controller_id() == obj.controller@,
            r.ledger() == obj.token,
            r.paused_mask() == obj.paused,
            r.last_epoch() is None,
            r.metadata_view() == (
                obj.name@,
                obj.symbol@,
                obj.reference@,
                obj.reference_hash@,
                obj.decimals,
                None::<Seq<char>>,
            ),
    {
        BridgeToken {
            controller: obj.controller,
            token: obj.token,
            name: obj.name,
            symbol: obj.symbol,
            reference: obj.reference,
            reference_hash: obj.reference_hash,
            decimals: obj.decimals,
            icon: None,
            paused: obj.paused,
            last_epoch: None,
        }
    }

    /// Moves the state of before the icon to the current layout; the controller
    /// or the contract itself only.
    pub fn migrate_nep_148_add_icon(
        old_state: BridgeTokenV0,
        caller: &String,
        current_account: &String,
    ) -> (r: Result<Self, TokenError>)
        ensures
            r is Ok <==> (caller@ == old_state.controller@ || caller@ == current_account@),
            r is Ok ==> r->Ok_0 == Self::upgraded(old_state),
            r is Ok ==> r->Ok_0.controller_id() == old_state.controller@ && r->Ok_0.ledger()
                == old_state.token && r->Ok_0.paused_mask() == old_state.paused
                && r->Ok_0.last_epoch() is None && r->Ok_0.metadata_view() == (
                old_state.name@,
                old_state.symbol@,
                old_state.reference@,
                old_state.reference_hash@,
                old_state.decimals,
                None::<Seq<char>>,
            ),
            r is Err ==> r == Err::<Self, TokenError>(TokenError::Unauthorized),
    {
        let new_state = Self::from(old_state);
        if !new_state.controller_or_self(caller, current_account) {
            return Err(TokenError::Unauthorized);
        }
        Ok(new_state)
    }
}

} // verus!
