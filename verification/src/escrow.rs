//! The escrow ledger: available and held funds of each identity.
//!
//! The registry never touches balances itself. It asks this ledger to hold
//! funds against an identity, to release them again, and to move available
//! funds from one identity to another. The three requests are given here as
//! functions on the ledger's view, and the ledger's methods are proved
//! against them.

use vstd::prelude::*;
use crate::primitives::{Balance, Identity};

verus! {

/// The identity has fewer available funds than were asked for.
#[derive(Clone, Copy, Debug, PartialEq, Eq)]
pub struct InsufficientFunds;

/// The funds in the ledger would exceed the largest representable balance.
#[derive(Clone, Copy, Debug, PartialEq, Eq)]
pub struct IssuanceOverflow;

/// What the ledger knows of one identity.
pub ghost struct Holding {
    /// Funds that the identity can spend or have held.
    pub available: nat,
    /// Funds reserved against the identity.
    pub held: nat,
}

/// The ledger after `amount` of `who`'s available funds has been put on
/// hold.
pub open spec fn held_up(
    ledger: Map<Identity, Holding>,
    who: Identity,
    amount: nat,
) -> Map<Identity, Holding> {
    ledger.insert(
        who,
        Holding {
            available: (ledger[who].available - amount) as nat,
            held: ledger[who].held + amount,
        },
    )
}

/// How much of `amount` a release finds on hold against `who`.
pub open spec fn releasable(ledger: Map<Identity, Holding>, who: Identity, amount: nat) -> nat {
    if amount <= ledger[who].held {
        amount
    } else {
        ledger[who].held
    }
}

/// The ledger after a release of `amount` from `who`'s hold: as much of it
/// as is on hold becomes available again.
pub open spec fn released(
    ledger: Map<Identity, Holding>,
    who: Identity,
    amount: nat,
) -> Map<Identity, Holding> {
    ledger.insert(
        who,
        Holding {
            available: ledger[who].available + releasable(ledger, who, amount),
            held: (ledger[who].held - releasable(ledger, who, amount)) as nat,
        },
    )
}

/// The ledger after `amount` has been added to `who`'s available funds.
pub open spec fn credited(
    ledger: Map<Identity, Holding>,
    who: Identity,
    amount: nat,
) -> Map<Identity, Holding> {
    ledger.insert(
        who,
        Holding { available: ledger[who].available + amount, held: ledger[who].held },
    )
}

/// The ledger after `amount` has been taken from `who`'s available funds.
pub open spec fn debited(
    ledger: Map<Identity, Holding>,
    who: Identity,
    amount: nat,
) -> Map<Identity, Holding> {
    ledger.insert(
        who,
        Holding { available: (ledger[who].available - amount) as nat, held: ledger[who].held },
    )
}

/// The ledger after `amount` of available funds has moved from `from` to
/// `to`.
pub open spec fn moved(
    ledger: Map<Identity, Holding>,
    from: Identity,
    to: Identity,
    amount: nat,
) -> Map<Identity, Holding> {
    credited(debited(ledger, from, amount), to, amount)
}

#[derive(Clone, Copy)]
struct Account {
    who: Identity,
    free: Balance,
    reserved: Balance,
}

/// The funds of the accounts in `accounts`, available and held together.
spec fn total(accounts: Seq<Account>) -> nat
    decreases accounts.len(),
{
    if accounts.len() == 0 {
        0
    } else {
        (total(accounts.drop_last()) + accounts.last().free + accounts.last().reserved) as nat
    }
}

spec fn distinct(accounts: Seq<Account>) -> bool {
    forall|i: int, j: int|
        0 <= i < j < accounts.len() ==> (#[trigger] accounts[i]).who != (#[trigger] accounts[j]).who
}

spec fn has_account(accounts: Seq<Account>, who: Identity) -> bool {
    exists|i: int| 0 <= i < accounts.len() && (#[trigger] accounts[i]).who == who
}

spec fn account_index(accounts: Seq<Account>, who: Identity) -> int {
    choose|i: int| 0 <= i < accounts.len() && (#[trigger] accounts[i]).who == who
}

spec fn holding_of(account: Account) -> Holding {
    Holding { available: account.free as nat, held: account.reserved as nat }
}

spec fn holding(accounts: Seq<Account>, who: Identity) -> Holding {
    if has_account(accounts, who) {
        holding_of(accounts[account_index(accounts, who)])
    } else {
        Holding { available: 0, held: 0 }
    }
}

proof fn lemma_total_push(accounts: Seq<Account>, account: Account)
    ensures
        total(accounts.push(account)) == total(accounts) + account.free + account.reserved,
{
    assert(accounts.push(account).drop_last() =~= accounts);
}

proof fn lemma_total_update(accounts: Seq<Account>, i: int, account: Account)
    requires
        0 <= i < accounts.len(),
    ensures
        total(accounts.update(i, account)) + accounts[i].free + accounts[i].reserved
            == total(accounts) + account.free + account.reserved,
    decreases accounts.len(),
{
    let updated = accounts.update(i, account);
    if i == accounts.len() - 1 {
        assert(updated.drop_last() =~= accounts.drop_last());
    } else {
        lemma_total_update(accounts.drop_last(), i, account);
        assert(updated.drop_last() =~= accounts.drop_last().update(i, account));
    }
}

proof fn lemma_total_bounds(accounts: Seq<Account>, i: int)
    requires
        0 <= i < accounts.len(),
    ensures
        accounts[i].free + accounts[i].reserved <= total(accounts),
    decreases accounts.len(),
{
    if i < accounts.len() - 1 {
        lemma_total_bounds(accounts.drop_last(), i);
    }
}

proof fn lemma_holding_at(accounts: Seq<Account>, i: int)
    requires
        distinct(accounts),
        0 <= i < accounts.len(),
    ensures
        has_account(accounts, accounts[i].who),
        holding(accounts, accounts[i].who) == holding_of(accounts[i]),
{
    let j = account_index(accounts, accounts[i].who);
    assert(accounts[j].who == accounts[i].who);
}

proof fn lemma_holding_absent(accounts: Seq<Account>, who: Identity)
    requires
        forall|i: int| 0 <= i < accounts.len() ==> (#[trigger] accounts[i]).who != who,
    ensures
        holding(accounts, who) == (Holding { available: 0, held: 0 }),
{
}

/// Replacing an account by one of the same identity changes that
/// identity's holding and no other.
proof fn lemma_holding_update(accounts: Seq<Account>, i: int, account: Account)
    requires
        distinct(accounts),
        0 <= i < accounts.len(),
        account.who == accounts[i].who,
    ensures
        distinct(accounts.update(i, account)),
        forall|who: Identity|
            #[trigger] holding(accounts.update(i, account), who) == if who == account.who {
                holding_of(account)
            } else {
                holding(accounts, who)
            },
{
    let updated = accounts.update(i, account);
    assert forall|a: int, b: int| 0 <= a < b < updated.len() implies (#[trigger] updated[a]).who
        != (#[trigger] updated[b]).who by {
        assert(updated[a].who == accounts[a].who);
        assert(updated[b].who == accounts[b].who);
    }
    assert forall|who: Identity|
        #[trigger] holding(updated, who) == if who == account.who {
            holding_of(account)
        } else {
            holding(accounts, who)
        } by {
        if who == account.who {
            lemma_holding_at(updated, i);
        } else if has_account(updated, who) {
            let j = account_index(updated, who);
            assert(accounts[j].who == who);
            lemma_holding_at(updated, j);
            lemma_holding_at(accounts, j);
        } else if has_account(accounts, who) {
            let j = account_index(accounts, who);
            assert(updated[j].who == who);
        }
    }
}

/// Adding an account of an identity that had none changes that identity's
/// holding and no other.
proof fn lemma_holding_push(accounts: Seq<Account>, account: Account)
    requires
        distinct(accounts),
        forall|i: int| 0 <= i < accounts.len() ==> (#[trigger] accounts[i]).who != account.who,
    ensures
        distinct(accounts.push(account)),
        forall|who: Identity|
            #[trigger] holding(accounts.push(account), who) == if who == account.who {
                holding_of(account)
            } else {
                holding(accounts, who)
            },
{
    let pushed = accounts.push(account);
    assert forall|a: int, b: int| 0 <= a < b < pushed.len() implies (#[trigger] pushed[a]).who
        != (#[trigger] pushed[b]).who by {
        assert(pushed[a] == accounts[a]);
        if b < accounts.len() {
            assert(pushed[b] == accounts[b]);
        }
    }
    assert forall|who: Identity|
        #[trigger] holding(pushed, who) == if who == account.who {
            holding_of(account)
        } else {
            holding(accounts, who)
        } by {
        if who == account.who {
            lemma_holding_at(pushed, accounts.len() as int);
        } else if has_account(pushed, who) {
            let j = account_index(pushed, who);
            assert(j < accounts.len());
            assert(accounts[j].who == who);
            lemma_holding_at(pushed, j);
            lemma_holding_at(accounts, j);
        } else if has_account(accounts, who) {
            let j = account_index(accounts, who);
            assert(pushed[j].who == who);
        }
    }
}

/// The available and the held funds of every identity.
///
/// An identity that the ledger has never heard of has neither. The funds of
/// all identities together, the total issuance, fit in a `Balance`; holding,
/// releasing and moving funds leave that total as it is.
pub struct EscrowLedger {
    accounts: Vec<Account>,
    issuance: Balance,
}

impl View for EscrowLedger {
    type V = Map<Identity, Holding>;

    /// The holding of every identity: the map is total.
    closed spec fn view(&self) -> Map<Identity, Holding> {
        Map::total(|who: Identity| holding(self.accounts@, who))
    }
}

impl EscrowLedger {
    /// The ledger's invariant: one account for an identity at most, and a
    /// total issuance that fits in a `Balance`.
    pub closed spec fn wf(&self) -> bool {
        &&& distinct(self.accounts@)
        &&& total(self.accounts@) == self.issuance
    }

    /// All funds in the ledger, available and held.
    pub closed spec fn issuance(&self) -> nat {
        self.issuance as nat
    }

    /// No identity holds more than the ledger's total issuance, which fits
    /// in a `Balance`.
    pub proof fn lemma_holding_bounded(&self, who: Identity)
        requires
            self.wf(),
        ensures
            self@.dom().contains(who),
            self@[who].available + self@[who].held <= self.issuance() <= Balance::MAX,
    {
        if has_account(self.accounts@, who) {
            let i = account_index(self.accounts@, who);
            lemma_total_bounds(self.accounts@, i);
        }
    }

    /// A ledger without funds.
    pub fn new() -> (ledger: Self)
        ensures
            ledger.wf(),
            ledger.issuance() == 0,
            forall|who: Identity| #[trigger] ledger@[who] == (Holding { available: 0, held: 0 }),
    {
        let ledger = EscrowLedger { accounts: Vec::new(), issuance: 0 };
        assert forall|who: Identity| #[trigger] ledger@[who] == (Holding { available: 0, held: 0 }) by {
            lemma_holding_absent(ledger.accounts@, who);
        }
        ledger
    }

    fn find(&self, who: Identity) -> (found: Option<usize>)
        ensures
            match found {
                Some(i) => i < self.accounts@.len() && self.accounts@[i as int].who == who,
                None => forall|i: int|
                    0 <= i < self.accounts@.len() ==> (#[trigger] self.accounts@[i]).who != who,
            },
    {
        let mut i: usize = 0;
        while i < self.accounts.len()
            invariant
                i <= self.accounts@.len(),
                forall|k: int| 0 <= k < i ==> (#[trigger] self.accounts@[k]).who != who,
            decreases self.accounts@.len() - i,
        {
            if self.accounts[i].who == who {
                return Some(i);
            }
            i += 1;
        }
        None
    }

    /// The ledger's total issuance.
    pub fn total_issuance(&self) -> (amount: Balance)
        ensures
            amount == self.issuance(),
    {
        self.issuance
    }

    /// The funds that `who` can spend or have held.
    pub fn available(&self, who: Identity) -> (amount: Balance)
        requires
            self.wf(),
        ensures
            amount == self@[who].available,
    {
        match self.find(who) {
            Some(i) => {
                proof {
                    lemma_holding_at(self.accounts@, i as int);
                }
                self.accounts[i].free
            },
            None => {
                proof {
                    lemma_holding_absent(self.accounts@, who);
                }
                0
            },
        }
    }

    /// The funds that are on hold against `who`.
    pub fn held(&self, who: Identity) -> (amount: Balance)
        requires
            self.wf(),
        ensures
            amount == self@[who].held,
    {
        match self.find(who) {
            Some(i) => {
                proof {
                    lemma_holding_at(self.accounts@, i as int);
                }
                self.accounts[i].reserved
            },
            None => {
                proof {
                    lemma_holding_absent(self.accounts@, who);
                }
                0
            },
        }
    }

    /// Adds `amount` to the available funds of `who`, whose account is made
    /// if there is none yet.
    fn credit(&mut self, who: Identity, amount: Balance)
        requires
            old(self).wf(),
            old(self).issuance() + amount <= Balance::MAX,
        ensures
            final(self).wf(),
            final(self).issuance() == old(self).issuance() + amount,
            final(self)@ == credited(old(self)@, who, amount as nat),
    {
        match self.find(who) {
            Some(i) => {
                let account = self.accounts[i];
                proof {
                    lemma_total_bounds(self.accounts@, i as int);
                }
                let credited_account = Account {
                    who,
                    free: account.free + amount,
                    reserved: account.reserved,
                };
                proof {
                    lemma_holding_at(self.accounts@, i as int);
                    lemma_total_update(self.accounts@, i as int, credited_account);
                    lemma_holding_update(self.accounts@, i as int, credited_account);
                }
                self.accounts.set(i, credited_account);
            },
            None => {
                let account = Account { who, free: amount, reserved: 0 };
                proof {
                    lemma_holding_absent(self.accounts@, who);
                    lemma_total_push(self.accounts@, account);
                    lemma_holding_push(self.accounts@, account);
                }
                self.accounts.push(account);
            },
        }
        self.issuance = self.issuance + amount;
        assert(final(self)@ =~= credited(old(self)@, who, amount as nat));
    }

    /// Takes `amount` from the available funds of `who`.
    fn debit(&mut self, who: Identity, amount: Balance)
        requires
            old(self).wf(),
            amount <= old(self)@[who].available,
        ensures
            final(self).wf(),
            final(self).issuance() == old(self).issuance() - amount,
            final(self)@ == debited(old(self)@, who, amount as nat),
    {
        match self.find(who) {
            Some(i) => {
                let account = self.accounts[i];
                proof {
                    lemma_holding_at(self.accounts@, i as int);
                    lemma_total_bounds(self.accounts@, i as int);
                }
                let debited_account = Account {
                    who,
                    free: account.free - amount,
                    reserved: account.reserved,
                };
                proof {
                    lemma_total_update(self.accounts@, i as int, debited_account);
                    lemma_holding_update(self.accounts@, i as int, debited_account);
                }
                self.accounts.set(i, debited_account);
                self.issuance = self.issuance - amount;
            },
            None => {
                proof {
                    lemma_holding_absent(self.accounts@, who);
                }
            },
        }
        assert(final(self)@ =~= debited(old(self)@, who, amount as nat));
    }

    /// Brings new funds into the ledger, as available funds of `who`. Fails,
    /// and changes nothing, where the total issuance would no longer fit in
    /// a `Balance`.
    pub fn deposit(
        &mut self,
        who: Identity,
        amount: Balance,
    ) -> (done: Result<(), IssuanceOverflow>)
        requires
            old(self).wf(),
        ensures
            final(self).wf(),
            match done {
                Ok(_) => {
                    &&& old(self).issuance() + amount <= Balance::MAX
                    &&& final(self).issuance() == old(self).issuance() + amount
                    &&& final(self)@ == credited(old(self)@, who, amount as nat)
                },
                Err(_) => {
                    &&& old(self).issuance() + amount > Balance::MAX
                    &&& final(self).issuance() == old(self).issuance()
                    &&& final(self)@ == old(self)@
                },
            },
    {
        if amount > Balance::MAX - self.issuance {
            Err(IssuanceOverflow)
        } else {
            self.credit(who, amount);
            Ok(())
        }
    }

    /// Puts `amount` of the available funds of `who` on hold. Fails, and
    /// changes nothing, where `who` has less than that available.
    pub fn hold(&mut self, who: Identity, amount: Balance) -> (done: Result<(), InsufficientFunds>)
        requires
            old(self).wf(),
        ensures
            final(self).wf(),
            final(self).issuance() == old(self).issuance(),
            match done {
                Ok(_) => {
                    &&& amount <= old(self)@[who].available
                    &&& final(self)@ == held_up(old(self)@, who, amount as nat)
                },
                Err(_) => {
                    &&& amount > old(self)@[who].available
                    &&& final(self)@ == old(self)@
                },
            },
    {
        match self.find(who) {
            Some(i) => {
                let account = self.accounts[i];
                proof {
                    lemma_holding_at(self.accounts@, i as int);
                    lemma_total_bounds(self.accounts@, i as int);
                }
                if account.free < amount {
                    return Err(InsufficientFunds);
                }
                let held_account = Account {
                    who,
                    free: account.free - amount,
                    reserved: account.reserved + amount,
                };
                proof {
                    lemma_total_update(self.accounts@, i as int, held_account);
                    lemma_holding_update(self.accounts@, i as int, held_account);
                }
                self.accounts.set(i, held_account);
            },
            None => {
                proof {
                    lemma_holding_absent(self.accounts@, who);
                }
                if amount > 0 {
                    return Err(InsufficientFunds);
                }
            },
        }
        assert(final(self)@ =~= held_up(old(self)@, who, amount as nat));
        Ok(())
    }

    /// Releases `amount` from the hold against `who`, or all that is on hold
    /// where that is less, and returns how much of `amount` was not there to
    /// release.
    pub fn release(&mut self, who: Identity, amount: Balance) -> (missing: Balance)
        requires
            old(self).wf(),
        ensures
            final(self).wf(),
            final(self).issuance() == old(self).issuance(),
            final(self)@ == released(old(self)@, who, amount as nat),
            missing == amount - releasable(old(self)@, who, amount as nat),
    {
        let mut missing: Balance = amount;
        match self.find(who) {
            Some(i) => {
                let account = self.accounts[i];
                proof {
                    lemma_holding_at(self.accounts@, i as int);
                    lemma_total_bounds(self.accounts@, i as int);
                }
                let part: Balance = if amount <= account.reserved {
                    amount
                } else {
                    account.reserved
                };
                let released_account = Account {
                    who,
                    free: account.free + part,
                    reserved: account.reserved - part,
                };
                proof {
                    lemma_total_update(self.accounts@, i as int, released_account);
                    lemma_holding_update(self.accounts@, i as int, released_account);
                }
                self.accounts.set(i, released_account);
                missing = amount - part;
            },
            None => {
                proof {
                    lemma_holding_absent(self.accounts@, who);
                }
            },
        }
        assert(final(self)@ =~= released(old(self)@, who, amount as nat));
        missing
    }

    /// Moves `amount` of available funds from `from` to `to`. Fails, and
    /// changes nothing, where `from` has less than that available.
    pub fn transfer(
        &mut self,
        from: Identity,
        to: Identity,
        amount: Balance,
    ) -> (done: Result<(), InsufficientFunds>)
        requires
            old(self).wf(),
        ensures
            final(self).wf(),
            final(self).issuance() == old(self).issuance(),
            match done {
                Ok(_) => {
                    &&& amount <= old(self)@[from].available
                    &&& final(self)@ == moved(old(self)@, from, to, amount as nat)
                },
                Err(_) => {
                    &&& amount > old(self)@[from].available
                    &&& final(self)@ == old(self)@
                },
            },
    {
        if self.available(from) < amount {
            return Err(InsufficientFunds);
        }
        proof {
            self.lemma_holding_bounded(from);
        }
        self.debit(from, amount);
        self.credit(to, amount);
        Ok(())
    }
}

} // verus!
