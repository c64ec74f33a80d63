//! The ledger: balance store, supply tracker and the mutators over them.
//!
//! A `Ledger` owns its state: the balance entries, the total supply scalar
//! and the cached storage cost of one entry. A balance entry exists exactly
//! for the accounts that are registered, and at all times the entries sum to
//! the recorded total supply; `wf` states both invariants, every constructor
//! establishes them and every operation preserves them.
//!
//! Every operation that changes a balance rewrites exactly the slots of
//! the accounts it names, through checked arithmetic, and its contract
//! states that frame; a transfer's withdraw-then-deposit is one such
//! rewrite of two slots. The supply scalar moves only at the supply
//! boundary — minting, and the burn of a forced unregistration — and
//! always in lock step with the slot it matches, never on a transfer.

use vstd::prelude::*;
use crate::account::AccountId;
use crate::error::LedgerError;
use crate::event::Event;
use crate::sums::{
    lemma_sum_bound, lemma_sum_pair_bound, lemma_sum_push, lemma_sum_remove, lemma_sum_take_le,
    lemma_sum_take_succ, lemma_sum_update, sum_of,
};

verus! {

/// What `register` reports on success.
#[derive(Debug, PartialEq, Eq)]
pub enum RegisterOutcome {
    /// A balance entry was created; `refund` is the surplus of the attached
    /// payment over the storage cost, owed back to the payer.
    Registered { refund: u128 },
    /// The account already had an entry; the attached payment is owed back
    /// in full and nothing changed.
    AlreadyRegistered { refund: u128 },
}

/// What `unregister` reports on success.
#[derive(Debug, PartialEq, Eq)]
pub struct UnregisterOutcome {
    /// The balance destroyed together with the entry; zero unless `force`
    /// removed a funded account.
    pub burned: u128,
    /// The burn event, when funds were destroyed.
    pub events: Vec<Event>,
}

/// What `resolve_transfer` reports on success.
#[derive(Debug, PartialEq, Eq)]
pub struct RefundOutcome {
    /// How much actually moved back to the original sender.
    pub refunded: u128,
    /// How much of the unused amount could not be returned because the
    /// receiver no longer holds it. A nonzero shortfall is a warning, not a
    /// rollback: funds the receiver spent stay spent.
    pub shortfall: u128,
    /// The reverse transfer event, when anything was refunded.
    pub events: Vec<Event>,
}

/// How much of a notified transfer went unused: the sent amount less what
/// the receiver reported as used, never negative — a report above the sent
/// amount counts as everything used.
pub open spec fn spec_unused(amount_sent: u128, amount_used: u128) -> int {
    if amount_used >= amount_sent {
        0
    } else {
        amount_sent - amount_used
    }
}

/// The best-effort refund: the unused amount, capped at what the receiver
/// still holds.
pub open spec fn spec_refund(unused: int, receiver_balance: u128) -> int {
    if unused > receiver_balance {
        receiver_balance as int
    } else {
        unused
    }
}

/// The fungible-token ledger: account identities, their balances, the total
/// issued supply and the storage cost basis for registration.
pub struct Ledger {
    ids: Vec<AccountId>,
    balances: Vec<u128>,
    total_supply: u128,
    bytes_for_longest_account_id: u64,
}

impl Ledger {
    /// Whether `id` holds a balance entry.
    pub closed spec fn spec_registered(self, id: Seq<u8>) -> bool {
        exists|i: int| 0 <= i < self.ids@.len() && self.ids@[i]@ == id
    }

    /// The index of `id`'s entry, meaningful only while registered.
    closed spec fn spec_idx(self, id: Seq<u8>) -> int {
        choose|i: int| 0 <= i < self.ids@.len() && self.ids@[i]@ == id
    }

    /// The balance of `id`: its entry's value, or zero without an entry.
    pub closed spec fn spec_balance(self, id: Seq<u8>) -> u128 {
        if self.spec_registered(id) {
            self.balances@[self.spec_idx(id)]
        } else {
            0
        }
    }

    /// The recorded total supply.
    pub closed spec fn spec_supply(self) -> u128 {
        self.total_supply
    }

    /// The cached storage size of one balance entry, in bytes.
    pub closed spec fn spec_storage_bytes(self) -> u64 {
        self.bytes_for_longest_account_id
    }

    /// How many accounts are registered.
    pub closed spec fn spec_account_count(self) -> nat {
        self.ids@.len()
    }

    /// The identity stored at slot `i`.
    pub closed spec fn spec_account_at(self, i: int) -> Seq<u8> {
        self.ids@[i]@
    }

    /// The balance stored at slot `i`.
    pub closed spec fn spec_balance_at(self, i: int) -> u128 {
        self.balances@[i]
    }

    /// The sum of all balance entries.
    pub closed spec fn spec_sum(self) -> int {
        sum_of(self.balances@)
    }

    /// The entry table is sound: one balance per identity, no identity
    /// twice.
    pub closed spec fn accounts_well_formed(self) -> bool {
        &&& self.ids@.len() == self.balances@.len()
        &&& forall|i: int, j: int|
            0 <= i < j < self.ids@.len() ==> self.ids@[i]@ != self.ids@[j]@
    }

    /// Full well-formedness: a sound entry table whose balances sum to the
    /// recorded total supply (conservation).
    pub open spec fn wf(self) -> bool {
        &&& self.accounts_well_formed()
        &&& self.spec_sum() == self.spec_supply() as int
    }

    /// The payment required to register one account, as an unbounded
    /// integer: the storage size of one entry times the price per byte.
    pub open spec fn spec_registration_cost(self, storage_price_per_byte: u128) -> int {
        self.spec_storage_bytes() * storage_price_per_byte
    }

    /// Slot `i` belongs to exactly the identity it stores: that identity is
    /// registered, resolves back to `i`, and its balance is the slot's.
    proof fn lemma_entry_at(self, i: int)
        requires
            self.accounts_well_formed(),
            0 <= i < self.ids@.len(),
        ensures
            self.spec_registered(self.ids@[i]@),
            self.spec_idx(self.ids@[i]@) == i,
            self.spec_balance(self.ids@[i]@) == self.balances@[i],
    {
        let id = self.ids@[i]@;
        assert(self.spec_registered(id));
        let k = self.spec_idx(id);
        assert(0 <= k < self.ids@.len() && self.ids@[k]@ == id);
        if k < i {
            assert(self.ids@[k]@ != self.ids@[i]@);
        } else if i < k {
            assert(self.ids@[i]@ != self.ids@[k]@);
        }
    }

    /// Looks up the slot of `account`, if it has one.
    fn find(&self, account: &AccountId) -> (r: Option<usize>)
        requires
            self.accounts_well_formed(),
        ensures
            match r {
                Some(i) => {
                    &&& i < self.ids@.len()
                    &&& self.ids@[i as int]@ == account@
                    &&& self.spec_registered(account@)
                    &&& self.spec_idx(account@) == i
                    &&& self.spec_balance(account@) == self.balances@[i as int]
                },
                None => !self.spec_registered(account@),
            },
    {
        let n = self.ids.len();
        let mut i: usize = 0;
        while i < n
            invariant
                self.accounts_well_formed(),
                n == self.ids@.len(),
                i <= n,
                forall|j: int| 0 <= j < i ==> self.ids@[j]@ != account@,
            decreases n - i,
        {
            if self.ids[i].eq_id(account) {
                proof {
                    self.lemma_entry_at(i as int);
                }
                return Some(i);
            }
            i = i + 1;
        }
        None
    }

    /// An empty ledger: nobody registered, nothing issued.
    pub fn new_empty(bytes_for_longest_account_id: u64) -> (r: Ledger)
        ensures
            r.wf(),
            r.spec_supply() == 0,
            r.spec_storage_bytes() == bytes_for_longest_account_id,
            forall|id: Seq<u8>| !r.spec_registered(id),
            forall|id: Seq<u8>| r.spec_balance(id) == 0,
    {
        Ledger {
            ids: Vec::new(),
            balances: Vec::new(),
            total_supply: 0,
            bytes_for_longest_account_id,
        }
    }

    /// The construction-time path: registers `owner` without payment and
    /// mints the whole initial supply to it, reporting the mint event with
    /// the note that this is the initial issuance.
    pub fn new(owner: AccountId, total_supply: u128, bytes_for_longest_account_id: u64) -> (r: (
        Ledger,
        Event,
    ))
        ensures
            r.0.wf(),
            r.0.spec_supply() == total_supply,
            r.0.spec_storage_bytes() == bytes_for_longest_account_id,
            r.0.spec_registered(owner@),
            r.0.spec_balance(owner@) == total_supply,
            forall|id: Seq<u8>|
                id != owner@ ==> !r.0.spec_registered(id) && r.0.spec_balance(id) == 0,
            (r.1 matches Event::Mint { owner: o, amount: a, memo: m } && o@ == owner@
                && a == total_supply && (m matches Some(t)
                && t@ == "Initial token supply is minted"@)),
    {
        let event_owner = owner.duplicate();
        let mut ids: Vec<AccountId> = Vec::new();
        let mut balances: Vec<u128> = Vec::new();
        ids.push(owner);
        balances.push(total_supply);
        let l = Ledger { ids, balances, total_supply, bytes_for_longest_account_id };
        proof {
            assert(l.balances@.drop_last() =~= Seq::<u128>::empty());
            assert(sum_of(Seq::<u128>::empty()) == 0);
            assert(l.spec_sum() == sum_of(l.balances@.drop_last()) + total_supply);
            assert(l.spec_sum() == total_supply);
            l.lemma_entry_at(0);
            assert forall|id: Seq<u8>| id != owner@ implies !l.spec_registered(id) by {
                if l.spec_registered(id) {
                    let i = choose|i: int| 0 <= i < l.ids@.len() && l.ids@[i]@ == id;
                    assert(i == 0);
                }
            }
        }
        let memo = String::from_str("Initial token supply is minted");
        (l, Event::Mint { owner: event_owner, amount: total_supply, memo: Some(memo) })
    }

    /// The balance of `account`; zero for an unregistered account, which
    /// does not mean the account is registered.
    pub fn balance_of(&self, account: &AccountId) -> (r: u128)
        requires
            self.accounts_well_formed(),
        ensures
            r == self.spec_balance(account@),
    {
        match self.find(account) {
            Some(i) => self.balances[i],
            None => 0,
        }
    }

    /// The recorded total supply.
    pub fn total_supply(&self) -> (r: u128)
        ensures
            r == self.spec_supply(),
    {
        self.total_supply
    }

    /// Whether `account` holds a balance entry.
    pub fn is_registered(&self, account: &AccountId) -> (r: bool)
        requires
            self.accounts_well_formed(),
        ensures
            r <==> self.spec_registered(account@),
    {
        self.find(account).is_some()
    }

    /// The cached storage size of one balance entry, in bytes.
    pub fn bytes_for_longest_account_id(&self) -> (r: u64)
        ensures
            r == self.spec_storage_bytes(),
    {
        self.bytes_for_longest_account_id
    }

    /// Appending a fresh identity with balance `b` keeps the table sound,
    /// registers exactly that identity, and leaves every other account's
    /// balance as it was.
    proof fn lemma_register_push(old_l: Ledger, new_l: Ledger, a: AccountId, b: u128)
        requires
            old_l.accounts_well_formed(),
            !old_l.spec_registered(a@),
            new_l.ids@ == old_l.ids@.push(a),
            new_l.balances@ == old_l.balances@.push(b),
        ensures
            new_l.accounts_well_formed(),
            new_l.spec_registered(a@),
            new_l.spec_balance(a@) == b,
            forall|id: Seq<u8>| #![auto]
                new_l.spec_registered(id) <==> (old_l.spec_registered(id) || id == a@),
            forall|id: Seq<u8>| #![auto]
                id != a@ ==> new_l.spec_balance(id) == old_l.spec_balance(id),
    {
        let n = old_l.ids@.len() as int;
        assert forall|i: int, j: int|
            0 <= i < j < new_l.ids@.len() implies new_l.ids@[i]@ != new_l.ids@[j]@ by {
            if j < n {
                assert(old_l.ids@[i]@ != old_l.ids@[j]@);
            } else {
                assert(new_l.ids@[j] == a);
                if new_l.ids@[i]@ == a@ {
                    assert(old_l.ids@[i]@ == a@);
                    assert(old_l.spec_registered(a@));
                }
            }
        }
        assert forall|id: Seq<u8>|
            new_l.spec_registered(id) implies (old_l.spec_registered(id) || id == a@) by {
            let i = choose|i: int| 0 <= i < new_l.ids@.len() && new_l.ids@[i]@ == id;
            if i < n {
                assert(old_l.ids@[i]@ == id);
                assert(old_l.spec_registered(id));
            } else {
                assert(new_l.ids@[i] == a);
            }
        }
        assert forall|id: Seq<u8>|
            (old_l.spec_registered(id) || id == a@) implies new_l.spec_registered(id) by {
            if old_l.spec_registered(id) {
                let i = choose|i: int| 0 <= i < old_l.ids@.len() && old_l.ids@[i]@ == id;
                assert(new_l.ids@[i]@ == id);
            } else {
                assert(new_l.ids@[n]@ == a@);
            }
        }
        new_l.lemma_entry_at(n);
        assert forall|id: Seq<u8>|
            id != a@ implies new_l.spec_balance(id) == old_l.spec_balance(id) by {
            if old_l.spec_registered(id) {
                let i = choose|i: int| 0 <= i < old_l.ids@.len() && old_l.ids@[i]@ == id;
                old_l.lemma_entry_at(i);
                new_l.lemma_entry_at(i);
                assert(new_l.balances@[i] == old_l.balances@[i]);
            } else {
                assert(!new_l.spec_registered(id));
            }
        }
    }

    /// Overwriting slot `i`'s balance keeps the table sound and changes
    /// exactly that slot's account.
    proof fn lemma_set_balance(old_l: Ledger, new_l: Ledger, i: int, v: u128)
        requires
            old_l.accounts_well_formed(),
            0 <= i < old_l.balances@.len(),
            new_l.ids@ == old_l.ids@,
            new_l.balances@ == old_l.balances@.update(i, v),
        ensures
            new_l.accounts_well_formed(),
            forall|id: Seq<u8>| #![auto]
                new_l.spec_registered(id) <==> old_l.spec_registered(id),
            new_l.spec_balance(old_l.ids@[i]@) == v,
            forall|id: Seq<u8>| #![auto]
                id != old_l.ids@[i]@ ==> new_l.spec_balance(id) == old_l.spec_balance(id),
    {
        new_l.lemma_entry_at(i);
        assert forall|id: Seq<u8>|
            id != old_l.ids@[i]@ implies new_l.spec_balance(id) == old_l.spec_balance(id) by {
            if old_l.spec_registered(id) {
                let k = choose|k: int| 0 <= k < old_l.ids@.len() && old_l.ids@[k]@ == id;
                old_l.lemma_entry_at(k);
                new_l.lemma_entry_at(k);
                assert(k != i);
                assert(new_l.balances@[k] == old_l.balances@[k]);
            }
        }
    }

    /// Removing slot `i` keeps the table sound, unregisters exactly that
    /// slot's identity, and leaves every other account alone.
    proof fn lemma_remove_entry(old_l: Ledger, new_l: Ledger, i: int)
        requires
            old_l.accounts_well_formed(),
            0 <= i < old_l.ids@.len(),
            new_l.ids@ == old_l.ids@.remove(i),
            new_l.balances@ == old_l.balances@.remove(i),
        ensures
            new_l.accounts_well_formed(),
            !new_l.spec_registered(old_l.ids@[i]@),
            forall|id: Seq<u8>| #![auto]
                id != old_l.ids@[i]@ ==> (new_l.spec_registered(id) <==> old_l.spec_registered(
                    id,
                )),
            forall|id: Seq<u8>| #![auto]
                id != old_l.ids@[i]@ ==> new_l.spec_balance(id) == old_l.spec_balance(id),
    {
        let rid = old_l.ids@[i]@;
        assert forall|p: int, q: int|
            0 <= p < q < new_l.ids@.len() implies new_l.ids@[p]@ != new_l.ids@[q]@ by {
            let p0 = if p < i {
                p
            } else {
                p + 1
            };
            let q0 = if q < i {
                q
            } else {
                q + 1
            };
            assert(new_l.ids@[p] == old_l.ids@[p0]);
            assert(new_l.ids@[q] == old_l.ids@[q0]);
            assert(old_l.ids@[p0]@ != old_l.ids@[q0]@);
        }
        if new_l.spec_registered(rid) {
            let k = choose|k: int| 0 <= k < new_l.ids@.len() && new_l.ids@[k]@ == rid;
            let k0 = if k < i {
                k
            } else {
                k + 1
            };
            assert(new_l.ids@[k] == old_l.ids@[k0]);
            assert(old_l.ids@[k0]@ == rid);
            assert(k0 != i);
            assert(old_l.ids@[k0]@ != old_l.ids@[i]@);
            assert(false);
        }
        assert forall|id: Seq<u8>|
            id != rid implies (new_l.spec_registered(id) <==> old_l.spec_registered(id)) by {
            if new_l.spec_registered(id) {
                let k = choose|k: int| 0 <= k < new_l.ids@.len() && new_l.ids@[k]@ == id;
                let k0 = if k < i {
                    k
                } else {
                    k + 1
                };
                assert(new_l.ids@[k] == old_l.ids@[k0]);
                assert(old_l.spec_registered(id));
            }
            if old_l.spec_registered(id) {
                let k0 = choose|k: int| 0 <= k < old_l.ids@.len() && old_l.ids@[k]@ == id;
                assert(k0 != i);
                let k = if k0 < i {
                    k0
                } else {
                    k0 - 1
                };
                assert(new_l.ids@[k] == old_l.ids@[k0]);
                assert(new_l.spec_registered(id));
            }
        }
        assert forall|id: Seq<u8>|
            id != rid implies new_l.spec_balance(id) == old_l.spec_balance(id) by {
            if old_l.spec_registered(id) {
                let k0 = choose|k: int| 0 <= k < old_l.ids@.len() && old_l.ids@[k]@ == id;
                old_l.lemma_entry_at(k0);
                assert(k0 != i);
                let k = if k0 < i {
                    k0
                } else {
                    k0 - 1
                };
                assert(new_l.ids@[k] == old_l.ids@[k0]);
                new_l.lemma_entry_at(k);
                assert(new_l.balances@[k] == old_l.balances@[k0]);
            } else {
                assert(!new_l.spec_registered(id));
            }
        }
    }

    /// Creates a balance entry for `account` against an attached payment.
    ///
    /// Idempotent: an account that already has an entry is reported as
    /// `AlreadyRegistered`, the full payment is owed back, and nothing
    /// changes. Otherwise the payment must cover the storage cost of one
    /// entry at the given per-byte price; the surplus is owed back and the
    /// new entry starts at zero. Registration never moves a balance or the
    /// supply.
    pub fn register(
        &mut self,
        account: &AccountId,
        attached_payment: u128,
        storage_price_per_byte: u128,
    ) -> (r: Result<RegisterOutcome, LedgerError>)
        requires
            old(self).accounts_well_formed(),
        ensures
            final(self).accounts_well_formed(),
            old(self).wf() ==> final(self).wf(),
            final(self).spec_supply() == old(self).spec_supply(),
            final(self).spec_storage_bytes() == old(self).spec_storage_bytes(),
            final(self).spec_sum() == old(self).spec_sum(),
            forall|id: Seq<u8>| #![auto]
                final(self).spec_balance(id) == old(self).spec_balance(id),
            r is Err ==> *final(self) == *old(self),
            old(self).spec_registered(account@) ==> (*final(self) == *old(self) && r == Ok::<
                RegisterOutcome,
                LedgerError,
            >(RegisterOutcome::AlreadyRegistered { refund: attached_payment })),
            (!old(self).spec_registered(account@) && attached_payment < old(
                self,
            ).spec_registration_cost(storage_price_per_byte)) ==> r == Err::<
                RegisterOutcome,
                LedgerError,
            >(LedgerError::InsufficientStoragePayment),
            (!old(self).spec_registered(account@) && attached_payment >= old(
                self,
            ).spec_registration_cost(storage_price_per_byte)) ==> (r == Ok::<
                RegisterOutcome,
                LedgerError,
            >(RegisterOutcome::Registered {
                    refund: (attached_payment - old(self).spec_registration_cost(
                        storage_price_per_byte,
                    )) as u128,
                }) && forall|id: Seq<u8>| #![auto]
                final(self).spec_registered(id) <==> (old(self).spec_registered(id) || id
                    == account@)),
    {
        match self.find(account) {
            Some(_) => Ok(RegisterOutcome::AlreadyRegistered { refund: attached_payment }),
            None => {
                let bytes = self.bytes_for_longest_account_id as u128;
                match bytes.checked_mul(storage_price_per_byte) {
                    None => Err(LedgerError::InsufficientStoragePayment),
                    Some(required) => {
                        if attached_payment < required {
                            Err(LedgerError::InsufficientStoragePayment)
                        } else {
                            let refund = attached_payment - required;
                            let ghost l0 = *self;
                            let a = account.duplicate();
                            let ghost ag = a;
                            self.ids.push(a);
                            self.balances.push(0);
                            proof {
                                Self::lemma_register_push(l0, *self, ag, 0);
                                lemma_sum_push(l0.balances@, 0);
                            }
                            Ok(RegisterOutcome::Registered { refund })
                        }
                    }
                }
            }
        }
    }

    /// Adds `amount` to a registered account's balance.
    ///
    /// This is one of the two choke points through which every balance
    /// change passes. It moves no supply: callers at the supply boundary
    /// pair it with a matching supply increase, and transfers pair it with
    /// a withdrawal. The addition is checked; an amount that would wrap the
    /// balance is refused fatally and nothing changes.
    pub fn deposit(&mut self, account: &AccountId, amount: u128) -> (r: Result<
        u128,
        LedgerError,
    >)
        requires
            old(self).accounts_well_formed(),
        ensures
            final(self).accounts_well_formed(),
            final(self).spec_supply() == old(self).spec_supply(),
            final(self).spec_storage_bytes() == old(self).spec_storage_bytes(),
            forall|id: Seq<u8>| #![auto]
                final(self).spec_registered(id) <==> old(self).spec_registered(id),
            r is Ok <==> (old(self).spec_registered(account@) && old(self).spec_balance(account@)
                + amount <= u128::MAX),
            r is Err ==> *final(self) == *old(self),
            !old(self).spec_registered(account@) ==> (r matches Err(
                LedgerError::AccountNotRegistered(m),
            ) && m@ == account@),
            (old(self).spec_registered(account@) && old(self).spec_balance(account@) + amount
                > u128::MAX) ==> r == Err::<u128, LedgerError>(LedgerError::BalanceOverflow),
            r matches Ok(nb) ==> {
                &&& nb == old(self).spec_balance(account@) + amount
                &&& final(self).spec_balance(account@) == nb
                &&& forall|id: Seq<u8>| #![auto]
                    id != account@ ==> final(self).spec_balance(id) == old(self).spec_balance(id)
                &&& final(self).spec_sum() == old(self).spec_sum() + amount
            },
    {
        match self.find(account) {
            None => Err(LedgerError::AccountNotRegistered(account.bytes_owned())),
            Some(i) => {
                let balance = self.balances[i];
                match balance.checked_add(amount) {
                    None => Err(LedgerError::BalanceOverflow),
                    Some(new_balance) => {
                        let ghost l0 = *self;
                        self.balances.set(i, new_balance);
                        proof {
                            Self::lemma_set_balance(l0, *self, i as int, new_balance);
                            lemma_sum_update(l0.balances@, i as int, new_balance);
                        }
                        Ok(new_balance)
                    }
                }
            }
        }
    }

    /// Takes `amount` from a registered account's balance.
    ///
    /// The second choke point. The subtraction is checked: an amount above
    /// the current balance is refused as `InsufficientBalance` — a caller
    /// error, not corruption — and nothing changes. It moves no supply.
    pub fn withdraw(&mut self, account: &AccountId, amount: u128) -> (r: Result<
        u128,
        LedgerError,
    >)
        requires
            old(self).accounts_well_formed(),
        ensures
            final(self).accounts_well_formed(),
            final(self).spec_supply() == old(self).spec_supply(),
            final(self).spec_storage_bytes() == old(self).spec_storage_bytes(),
            forall|id: Seq<u8>| #![auto]
                final(self).spec_registered(id) <==> old(self).spec_registered(id),
            r is Ok <==> (old(self).spec_registered(account@) && amount <= old(self).spec_balance(
                account@,
            )),
            r is Err ==> *final(self) == *old(self),
            !old(self).spec_registered(account@) ==> (r matches Err(
                LedgerError::AccountNotRegistered(m),
            ) && m@ == account@),
            (old(self).spec_registered(account@) && amount > old(self).spec_balance(account@))
                ==> r == Err::<u128, LedgerError>(LedgerError::InsufficientBalance),
            r matches Ok(nb) ==> {
                &&& nb == old(self).spec_balance(account@) - amount
                &&& final(self).spec_balance(account@) == nb
                &&& forall|id: Seq<u8>| #![auto]
                    id != account@ ==> final(self).spec_balance(id) == old(self).spec_balance(id)
                &&& final(self).spec_sum() == old(self).spec_sum() - amount
            },
    {
        match self.find(account) {
            None => Err(LedgerError::AccountNotRegistered(account.bytes_owned())),
            Some(i) => {
                let balance = self.balances[i];
                match balance.checked_sub(amount) {
                    None => Err(LedgerError::InsufficientBalance),
                    Some(new_balance) => {
                        let ghost l0 = *self;
                        self.balances.set(i, new_balance);
                        proof {
                            Self::lemma_set_balance(l0, *self, i as int, new_balance);
                            lemma_sum_update(l0.balances@, i as int, new_balance);
                        }
                        Ok(new_balance)
                    }
                }
            }
        }
    }

    /// Moves `amount` from `sender` to `receiver` as one atomic unit:
    /// either both balances change or neither does. The supply never moves.
    ///
    /// Every precondition is checked before the first write, so a failed
    /// transfer — self-transfer, zero amount, an unregistered side,
    /// insufficient funds, or a receiver balance that would wrap — leaves
    /// the ledger exactly as it was.
    pub fn transfer(
        &mut self,
        sender: &AccountId,
        receiver: &AccountId,
        amount: u128,
        memo: Option<String>,
    ) -> (r: Result<Event, LedgerError>)
        requires
            old(self).wf(),
        ensures
            final(self).wf(),
            final(self).spec_supply() == old(self).spec_supply(),
            final(self).spec_storage_bytes() == old(self).spec_storage_bytes(),
            forall|id: Seq<u8>| #![auto]
                final(self).spec_registered(id) <==> old(self).spec_registered(id),
            r is Err ==> *final(self) == *old(self),
            r is Ok <==> (sender@ != receiver@ && amount > 0 && old(self).spec_registered(sender@)
                && old(self).spec_registered(receiver@) && amount <= old(self).spec_balance(
                sender@,
            ) && old(self).spec_balance(receiver@) + amount <= u128::MAX),
            sender@ == receiver@ ==> r == Err::<Event, LedgerError>(LedgerError::SelfTransfer),
            (sender@ != receiver@ && amount == 0) ==> r == Err::<Event, LedgerError>(
                LedgerError::ZeroAmount,
            ),
            (sender@ != receiver@ && amount > 0 && !old(self).spec_registered(sender@)) ==> (
            r matches Err(LedgerError::AccountNotRegistered(m)) && m@ == sender@),
            (sender@ != receiver@ && amount > 0 && old(self).spec_registered(sender@) && !old(
                self,
            ).spec_registered(receiver@)) ==> (r matches Err(LedgerError::AccountNotRegistered(m))
                && m@ == receiver@),
            (sender@ != receiver@ && amount > 0 && old(self).spec_registered(sender@) && old(
                self,
            ).spec_registered(receiver@) && amount > old(self).spec_balance(sender@)) ==> r
                == Err::<Event, LedgerError>(LedgerError::InsufficientBalance),
            (sender@ != receiver@ && amount > 0 && old(self).spec_registered(sender@) && old(
                self,
            ).spec_registered(receiver@) && amount <= old(self).spec_balance(sender@) && old(
                self,
            ).spec_balance(receiver@) + amount > u128::MAX) ==> r == Err::<Event, LedgerError>(
                LedgerError::BalanceOverflow,
            ),
            r matches Ok(ev) ==> {
                &&& final(self).spec_balance(sender@) == old(self).spec_balance(sender@) - amount
                &&& final(self).spec_balance(receiver@) == old(self).spec_balance(receiver@)
                    + amount
                &&& forall|id: Seq<u8>| #![auto]
                    (id != sender@ && id != receiver@) ==> final(self).spec_balance(id) == old(
                        self,
                    ).spec_balance(id)
                &&& ev matches Event::Transfer { sender: s, receiver: c, amount: a, memo: m }
                    && s@ == sender@ && c@ == receiver@ && a == amount && m == memo
            },
    {
        if sender.eq_id(receiver) {
            return Err(LedgerError::SelfTransfer);
        }
        if amount == 0 {
            return Err(LedgerError::ZeroAmount);
        }
        let sender_slot = match self.find(sender) {
            Some(i) => i,
            None => {
                return Err(LedgerError::AccountNotRegistered(sender.bytes_owned()));
            },
        };
        let receiver_slot = match self.find(receiver) {
            Some(i) => i,
            None => {
                return Err(LedgerError::AccountNotRegistered(receiver.bytes_owned()));
            },
        };
        let sender_balance = self.balances[sender_slot];
        let receiver_balance = self.balances[receiver_slot];
        if amount > sender_balance {
            return Err(LedgerError::InsufficientBalance);
        }
        let receiver_new = match receiver_balance.checked_add(amount) {
            Some(v) => v,
            None => {
                return Err(LedgerError::BalanceOverflow);
            },
        };
        proof {
            assert(sender_slot != receiver_slot);
        }
        let ghost l0 = *self;
        self.balances.set(sender_slot, sender_balance - amount);
        let ghost l1 = *self;
        self.balances.set(receiver_slot, receiver_new);
        proof {
            Self::lemma_set_balance(l0, l1, sender_slot as int, (sender_balance - amount) as u128);
            lemma_sum_update(l0.balances@, sender_slot as int, (sender_balance - amount) as u128);
            Self::lemma_set_balance(l1, *self, receiver_slot as int, receiver_new);
            lemma_sum_update(l1.balances@, receiver_slot as int, receiver_new);
            assert(l1.balances@[receiver_slot as int] == receiver_balance);
        }
        Ok(
            Event::Transfer {
                sender: sender.duplicate(),
                receiver: receiver.duplicate(),
                amount,
                memo,
            },
        )
    }

    /// Issues `amount` new tokens to a registered account, growing the
    /// balance and the total supply in lock step so that conservation is
    /// kept. The additions are checked; an amount that would wrap the
    /// supply is refused fatally and nothing changes.
    pub fn mint(&mut self, account: &AccountId, amount: u128, memo: Option<String>) -> (r:
        Result<Event, LedgerError>)
        requires
            old(self).wf(),
        ensures
            final(self).wf(),
            final(self).spec_storage_bytes() == old(self).spec_storage_bytes(),
            forall|id: Seq<u8>| #![auto]
                final(self).spec_registered(id) <==> old(self).spec_registered(id),
            r is Err ==> *final(self) == *old(self),
            r is Ok <==> (old(self).spec_registered(account@) && old(self).spec_supply() + amount
                <= u128::MAX),
            !old(self).spec_registered(account@) ==> (r matches Err(
                LedgerError::AccountNotRegistered(m),
            ) && m@ == account@),
            (old(self).spec_registered(account@) && old(self).spec_supply() + amount > u128::MAX)
                ==> r == Err::<Event, LedgerError>(LedgerError::BalanceOverflow),
            r matches Ok(ev) ==> {
                &&& final(self).spec_supply() == old(self).spec_supply() + amount
                &&& final(self).spec_balance(account@) == old(self).spec_balance(account@)
                    + amount
                &&& forall|id: Seq<u8>| #![auto]
                    id != account@ ==> final(self).spec_balance(id) == old(self).spec_balance(id)
                &&& ev matches Event::Mint { owner: o, amount: a, memo: m } && o@ == account@ && a
                    == amount && m == memo
            },
    {
        let slot = match self.find(account) {
            Some(i) => i,
            None => {
                return Err(LedgerError::AccountNotRegistered(account.bytes_owned()));
            },
        };
        let new_supply = match self.total_supply.checked_add(amount) {
            Some(v) => v,
            None => {
                return Err(LedgerError::BalanceOverflow);
            },
        };
        let balance = self.balances[slot];
        proof {
            lemma_sum_bound(self.balances@, slot as int);
        }
        let new_balance = balance + amount;
        let ghost l0 = *self;
        self.balances.set(slot, new_balance);
        self.total_supply = new_supply;
        proof {
            Self::lemma_set_balance(l0, *self, slot as int, new_balance);
            lemma_sum_update(l0.balances@, slot as int, new_balance);
        }
        Ok(Event::Mint { owner: account.duplicate(), amount, memo })
    }

    /// Removes an account's balance entry, making room for a storage
    /// refund on the caller's side.
    ///
    /// A funded account is protected: without `force` the removal is
    /// refused as `NonZeroBalance`. With `force` the remaining balance is
    /// destroyed together with the entry — an implicit burn, subtracted
    /// from the total supply and reported as a burn event so that the
    /// destructive removal stays distinguishable in the event stream.
    pub fn unregister(&mut self, account: &AccountId, force: bool) -> (r: Result<
        UnregisterOutcome,
        LedgerError,
    >)
        requires
            old(self).wf(),
        ensures
            final(self).wf(),
            final(self).spec_storage_bytes() == old(self).spec_storage_bytes(),
            r is Err ==> *final(self) == *old(self),
            !old(self).spec_registered(account@) ==> r == Err::<UnregisterOutcome, LedgerError>(
                LedgerError::NotRegistered,
            ),
            (old(self).spec_registered(account@) && old(self).spec_balance(account@) > 0
                && !force) ==> r == Err::<UnregisterOutcome, LedgerError>(
                LedgerError::NonZeroBalance,
            ),
            r is Ok <==> (old(self).spec_registered(account@) && (old(self).spec_balance(account@)
                == 0 || force)),
            r matches Ok(o) ==> {
                &&& o.burned == old(self).spec_balance(account@)
                &&& final(self).spec_supply() == old(self).spec_supply() - o.burned
                &&& !final(self).spec_registered(account@)
                &&& forall|id: Seq<u8>| #![auto]
                    id != account@ ==> (final(self).spec_registered(id) <==> old(
                        self,
                    ).spec_registered(id))
                &&& forall|id: Seq<u8>| #![auto]
                    id != account@ ==> final(self).spec_balance(id) == old(self).spec_balance(id)
                &&& (o.burned > 0 ==> o.events@.len() == 1 && (o.events@[0] matches Event::Burn {
                    account: a,
                    amount: b,
                    memo: m,
                } && a@ == account@ && b == o.burned && m is None))
                &&& (o.burned == 0 ==> o.events@.len() == 0)
            },
    {
        let slot = match self.find(account) {
            Some(i) => i,
            None => {
                return Err(LedgerError::NotRegistered);
            },
        };
        let balance = self.balances[slot];
        if balance > 0 && !force {
            return Err(LedgerError::NonZeroBalance);
        }
        proof {
            lemma_sum_bound(self.balances@, slot as int);
        }
        let ghost l0 = *self;
        let _ = self.ids.remove(slot);
        let _ = self.balances.remove(slot);
        self.total_supply = self.total_supply - balance;
        proof {
            Self::lemma_remove_entry(l0, *self, slot as int);
            lemma_sum_remove(l0.balances@, slot as int);
        }
        let mut events: Vec<Event> = Vec::new();
        if balance > 0 {
            events.push(Event::Burn { account: account.duplicate(), amount: balance, memo: None });
        }
        Ok(UnregisterOutcome { burned: balance, events })
    }

    /// Settles the callback step of a transfer-and-notify: the receiver
    /// reported how much of `amount_sent` it actually used, and the unused
    /// part is returned to the original sender.
    ///
    /// The refund is best effort, capped at what the receiver still holds:
    /// funds the receiver legitimately spent in the meantime are never
    /// rolled back. The uncovered part is reported as `shortfall`, a
    /// warning for the caller's log, not an error.
    pub fn resolve_transfer(
        &mut self,
        sender: &AccountId,
        receiver: &AccountId,
        amount_sent: u128,
        amount_used: u128,
    ) -> (r: Result<RefundOutcome, LedgerError>)
        requires
            old(self).wf(),
            sender@ != receiver@,
        ensures
            final(self).wf(),
            final(self).spec_supply() == old(self).spec_supply(),
            final(self).spec_storage_bytes() == old(self).spec_storage_bytes(),
            forall|id: Seq<u8>| #![auto]
                final(self).spec_registered(id) <==> old(self).spec_registered(id),
            r is Err ==> *final(self) == *old(self),
            r is Ok <==> (old(self).spec_registered(sender@) && old(self).spec_registered(
                receiver@,
            )),
            !old(self).spec_registered(sender@) ==> (r matches Err(
                LedgerError::AccountNotRegistered(m),
            ) && m@ == sender@),
            (old(self).spec_registered(sender@) && !old(self).spec_registered(receiver@)) ==> (
            r matches Err(LedgerError::AccountNotRegistered(m)) && m@ == receiver@),
            r matches Ok(o) ==> {
                &&& o.refunded == spec_refund(
                    spec_unused(amount_sent, amount_used),
                    old(self).spec_balance(receiver@),
                )
                &&& o.shortfall == spec_unused(amount_sent, amount_used) - o.refunded
                &&& final(self).spec_balance(receiver@) == old(self).spec_balance(receiver@)
                    - o.refunded
                &&& final(self).spec_balance(sender@) == old(self).spec_balance(sender@)
                    + o.refunded
                &&& forall|id: Seq<u8>| #![auto]
                    (id != sender@ && id != receiver@) ==> final(self).spec_balance(id) == old(
                        self,
                    ).spec_balance(id)
                &&& (o.refunded > 0 ==> o.events@.len() == 1 && (o.events@[0]
                    matches Event::Transfer { sender: s, receiver: c, amount: a, memo: m } && s@
                    == receiver@ && c@ == sender@ && a == o.refunded && m is None))
                &&& (o.refunded == 0 ==> o.events@.len() == 0)
            },
    {
        let sender_slot = match self.find(sender) {
            Some(i) => i,
            None => {
                return Err(LedgerError::AccountNotRegistered(sender.bytes_owned()));
            },
        };
        let receiver_slot = match self.find(receiver) {
            Some(i) => i,
            None => {
                return Err(LedgerError::AccountNotRegistered(receiver.bytes_owned()));
            },
        };
        let sender_balance = self.balances[sender_slot];
        let receiver_balance = self.balances[receiver_slot];
        let used = if amount_used > amount_sent {
            amount_sent
        } else {
            amount_used
        };
        let unused = amount_sent - used;
        let refunded = if unused > receiver_balance {
            receiver_balance
        } else {
            unused
        };
        let shortfall = unused - refunded;
        if refunded == 0 {
            return Ok(RefundOutcome { refunded, shortfall, events: Vec::new() });
        }
        proof {
            assert(sender_slot != receiver_slot);
            lemma_sum_pair_bound(self.balances@, sender_slot as int, receiver_slot as int);
        }
        let ghost l0 = *self;
        self.balances.set(receiver_slot, receiver_balance - refunded);
        let ghost l1 = *self;
        self.balances.set(sender_slot, sender_balance + refunded);
        proof {
            Self::lemma_set_balance(
                l0,
                l1,
                receiver_slot as int,
                (receiver_balance - refunded) as u128,
            );
            lemma_sum_update(
                l0.balances@,
                receiver_slot as int,
                (receiver_balance - refunded) as u128,
            );
            Self::lemma_set_balance(
                l1,
                *self,
                sender_slot as int,
                (sender_balance + refunded) as u128,
            );
            lemma_sum_update(l1.balances@, sender_slot as int, (sender_balance + refunded) as u128);
            assert(l1.balances@[sender_slot as int] == sender_balance);
        }
        let mut events: Vec<Event> = Vec::new();
        events.push(
            Event::Transfer {
                sender: receiver.duplicate(),
                receiver: sender.duplicate(),
                amount: refunded,
                memo: None,
            },
        );
        Ok(RefundOutcome { refunded, shortfall, events })
    }

    /// Rebuilds a ledger from persisted raw state, accepting it only if it
    /// satisfies the ledger invariants: one balance per identity, no
    /// identity twice, and balances that sum exactly to the recorded
    /// supply. State that fails the check is corruption, reported as the
    /// fatal `InvariantViolation`.
    pub fn from_parts(
        ids: Vec<AccountId>,
        balances: Vec<u128>,
        total_supply: u128,
        bytes_for_longest_account_id: u64,
    ) -> (r: Result<Ledger, LedgerError>)
        ensures
            r is Ok <==> (ids@.len() == balances@.len() && (forall|i: int, j: int|
                0 <= i < j < ids@.len() ==> ids@[i]@ != ids@[j]@) && sum_of(balances@)
                == total_supply as int),
            r is Err ==> r == Err::<Ledger, LedgerError>(LedgerError::InvariantViolation),
            r matches Ok(l) ==> {
                &&& l.wf()
                &&& l.spec_supply() == total_supply
                &&& l.spec_storage_bytes() == bytes_for_longest_account_id
                &&& l.spec_account_count() == ids@.len()
                &&& forall|id: Seq<u8>| #![auto]
                    l.spec_registered(id) <==> exists|i: int|
                        0 <= i < ids@.len() && ids@[i]@ == id
                &&& forall|i: int| #![auto]
                    0 <= i < ids@.len() ==> l.spec_balance(ids@[i]@) == balances@[i]
            },
    {
        let n = ids.len();
        if n != balances.len() {
            return Err(LedgerError::InvariantViolation);
        }
        let mut i: usize = 0;
        while i < n
            invariant
                n == ids@.len(),
                i <= n,
                forall|p: int, q: int| 0 <= p < q < n && p < i ==> ids@[p]@ != ids@[q]@,
            decreases n - i,
        {
            let mut j: usize = i + 1;
            while j < n
                invariant
                    n == ids@.len(),
                    i < j <= n,
                    forall|q: int| i < q < j ==> ids@[i as int]@ != ids@[q]@,
                decreases n - j,
            {
                if ids[i].eq_id(&ids[j]) {
                    return Err(LedgerError::InvariantViolation);
                }
                j = j + 1;
            }
            i = i + 1;
        }
        let mut acc: u128 = 0;
        let mut k: usize = 0;
        proof {
            assert(balances@.take(0) =~= Seq::<u128>::empty());
        }
        while k < n
            invariant
                n == balances@.len(),
                k <= n,
                acc == sum_of(balances@.take(k as int)),
            decreases n - k,
        {
            proof {
                lemma_sum_take_succ(balances@, k as int);
            }
            acc = match acc.checked_add(balances[k]) {
                Some(v) => v,
                None => {
                    proof {
                        lemma_sum_take_le(balances@, k as int + 1);
                    }
                    return Err(LedgerError::InvariantViolation);
                },
            };
            k = k + 1;
        }
        proof {
            assert(balances@.take(n as int) =~= balances@);
        }
        if acc != total_supply {
            return Err(LedgerError::InvariantViolation);
        }
        let l = Ledger { ids, balances, total_supply, bytes_for_longest_account_id };
        proof {
            assert forall|i2: int| 0 <= i2 < l.ids@.len() implies l.spec_balance(l.ids@[i2]@)
                == l.balances@[i2] by {
                l.lemma_entry_at(i2);
            }
        }
        Ok(l)
    }

    /// How many accounts are registered.
    pub fn account_count(&self) -> (r: usize)
        ensures
            r == self.spec_account_count(),
    {
        self.ids.len()
    }

    /// The identity stored at slot `i`, for callers that walk the table to
    /// persist or render it.
    pub fn account_at(&self, i: usize) -> (r: &AccountId)
        requires
            self.accounts_well_formed(),
            i < self.spec_account_count(),
        ensures
            r@ == self.spec_account_at(i as int),
            self.spec_registered(r@),
            self.spec_balance(r@) == self.spec_balance_at(i as int),
    {
        proof {
            self.lemma_entry_at(i as int);
        }
        &self.ids[i]
    }

    /// The balance stored at slot `i`.
    pub fn balance_at(&self, i: usize) -> (r: u128)
        requires
            self.accounts_well_formed(),
            i < self.spec_account_count(),
        ensures
            r == self.spec_balance_at(i as int),
    {
        self.balances[i]
    }
}

/// Conservation: in a well-formed ledger the balance entries sum exactly
/// to the recorded total supply, and every operation of this module keeps
/// the ledger well-formed — so the sum and the supply agree after any
/// sequence of registrations and transfers.
pub proof fn lemma_conservation(l: Ledger)
    requires
        l.wf(),
    ensures
        l.spec_sum() == l.spec_supply() as int,
{
}

/// An account without a balance entry holds nothing: its balance reads as
/// zero. Absence still means "not registered", not "zero balance" — the
/// registration question is `spec_registered`, not this value.
pub proof fn lemma_unregistered_balance_is_zero(l: Ledger, id: Seq<u8>)
    requires
        !l.spec_registered(id),
    ensures
        l.spec_balance(id) == 0,
{
}

/// Non-negativity: a balance is an unsigned count of smallest token units,
/// so no account's balance and no sum of balances is ever negative.
pub proof fn lemma_balances_nonnegative(l: Ledger, id: Seq<u8>)
    ensures
        0 <= l.spec_balance(id),
        l.wf() ==> 0 <= l.spec_sum(),
{
    if l.wf() {
        lemma_conservation(l);
    }
}

/// No single account can hold more than the total supply in a well-formed
/// ledger.
pub proof fn lemma_balance_le_supply(l: Ledger, id: Seq<u8>)
    requires
        l.wf(),
    ensures
        l.spec_balance(id) <= l.spec_supply(),
{
    if l.spec_registered(id) {
        let i = l.spec_idx(id);
        assert(0 <= i < l.ids@.len() && l.ids@[i]@ == id);
        lemma_sum_bound(l.balances@, i);
    }
}

/// Registration gate, deposit half: right after a registration the
/// account's balance is zero, so a following deposit of any amount fits
/// below the representable maximum and — by `deposit`'s contract — must
/// succeed.
pub proof fn lemma_deposit_after_register(l: Ledger, id: Seq<u8>, amount: u128)
    requires
        l.spec_balance(id) == 0,
    ensures
        l.spec_balance(id) + amount <= u128::MAX,
{
}

} // verus!
