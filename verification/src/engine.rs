//! Applying transactions to client accounts.
//!
//! The engine consumes transactions one at a time, in the order they appear in
//! the input, and keeps the resulting state of every client account.
//!
//! A few cases admit more than one reading. They are resolved the way a bank
//! would resolve them:
//!
//! - only deposits can be disputed;
//! - a dispute, resolve or chargeback must come from the client that owns the
//!   referenced transaction;
//! - a frozen account accepts no further transactions of any kind;
//! - a transaction ID is used at most once;
//! - a dispute may drive the available funds negative;
//! - a deposit or withdrawal without an amount, or with a negative one, is
//!   ignored, and an amount is cut (not rounded) to four decimal places.
//!
//! Anything the engine cannot apply is ignored, and processing continues.
use vstd::prelude::*;

use std::collections::BTreeMap;
use std::collections::HashMap;
use vstd::std_specs::btree::{increasing_seq, spec_values_iter};
use vstd::std_specs::iter::IteratorSpec;
use vstd::std_specs::cmp::OrdSpec;

pub use crate::account::Account;
use crate::account::{frozen, shifted, within_range, zero_model, AccountState};
use crate::amount::{
    cut_toward_zero, truncated, fits_at, lemma_truncated, pow10, lemma_exact_at, lemma_negated_value, model_of, negated,
    trunc_with_scale, value, Amount, AmountModel, MAX_SCALE,
};
use crate::transaction::{
    ClientId, DisputeState, RecordState, Transaction, TransactionRecord, TransactionType,
    Transactions, TxId, SCALE,
};

verus! {

/// What the engine holds: every account and every recorded deposit.
pub struct EngineState {
    pub accounts: Map<ClientId, AccountState>,
    pub records: Map<TxId, RecordState>,
}

/// An account just opened for `client`.
pub open spec fn opened(client: ClientId) -> AccountState {
    AccountState { client, available: zero_model(), held: zero_model(), locked: false }
}

/// The account of `client`, or the empty one that would be opened for them.
pub open spec fn account_of(s: EngineState, client: ClientId) -> AccountState {
    if s.accounts.contains_key(client) {
        s.accounts[client]
    } else {
        opened(client)
    }
}

/// The amount to credit or debit, if the row carries one a bank would act on:
/// present and with a positive sign, cut to `SCALE` fractional digits.
pub open spec fn usable(amount: Option<AmountModel>) -> Option<AmountModel> {
    match amount {
        Some(a) => if !a.0 {
            Some(truncated(a, SCALE))
        } else {
            None
        },
        None => None,
    }
}

/// The state `s` with the account of `client` set to `a`.
pub open spec fn with_account(s: EngineState, client: ClientId, a: AccountState) -> EngineState {
    EngineState { accounts: s.accounts.insert(client, a), records: s.records }
}

/// The engine after a deposit. The client's account is opened whatever becomes
/// of the deposit itself.
pub open spec fn deposit_step(
    s: EngineState,
    client: ClientId,
    tx: TxId,
    amount: Option<AmountModel>,
) -> EngineState {
    let a = account_of(s, client);
    match usable(amount) {
        Some(x) => if !s.records.contains_key(tx) && !a.locked && shifted(
            a,
            x,
            zero_model(),
        ) is Some {
            EngineState {
                accounts: s.accounts.insert(client, shifted(a, x, zero_model())->0),
                records: s.records.insert(
                    tx,
                    RecordState { client, amount: x, state: DisputeState::Undisputed },
                ),
            }
        } else {
            with_account(s, client, a)
        },
        None => with_account(s, client, a),
    }
}

/// The engine after a withdrawal. The client's account is opened whatever
/// becomes of the withdrawal itself.
pub open spec fn withdraw_step(s: EngineState, client: ClientId, amount: Option<AmountModel>) -> EngineState {
    let a = account_of(s, client);
    match usable(amount) {
        Some(x) => if !a.locked && value(a.available) >= value(x) && shifted(
            a,
            negated(x),
            zero_model(),
        ) is Some {
            with_account(s, client, shifted(a, negated(x), zero_model())->0)
        } else {
            with_account(s, client, a)
        },
        None => with_account(s, client, a),
    }
}

/// Whether a dispute, resolve or chargeback by `client` may refer to `tx`: the
/// deposit is known, it is the client's own, and the account is not frozen.
pub open spec fn referable(s: EngineState, client: ClientId, tx: TxId) -> bool {
    &&& s.records.contains_key(tx)
    &&& s.records[tx].client == client
    &&& s.accounts.contains_key(client)
    &&& !s.accounts[client].locked
}

/// The state `s` with the account of `client` set to `a` and the record of `tx`
/// moved to `state`.
pub open spec fn settled(
    s: EngineState,
    client: ClientId,
    tx: TxId,
    a: AccountState,
    state: DisputeState,
) -> EngineState {
    EngineState {
        accounts: s.accounts.insert(client, a),
        records: s.records.insert(
            tx,
            RecordState { client: s.records[tx].client, amount: s.records[tx].amount, state },
        ),
    }
}

/// The engine after a dispute.
pub open spec fn dispute_step(s: EngineState, client: ClientId, tx: TxId) -> EngineState {
    if referable(s, client, tx) && s.records[tx].state == DisputeState::Undisputed {
        let x = s.records[tx].amount;
        match shifted(s.accounts[client], negated(x), x) {
            Some(a) => settled(s, client, tx, a, DisputeState::Disputed),
            None => s,
        }
    } else {
        s
    }
}

/// The engine after a resolve.
pub open spec fn resolve_step(s: EngineState, client: ClientId, tx: TxId) -> EngineState {
    if referable(s, client, tx) && s.records[tx].state == DisputeState::Disputed {
        let x = s.records[tx].amount;
        match shifted(s.accounts[client], x, negated(x)) {
            Some(a) => settled(s, client, tx, a, DisputeState::Undisputed),
            None => s,
        }
    } else {
        s
    }
}

/// The engine after a chargeback.
pub open spec fn chargeback_step(s: EngineState, client: ClientId, tx: TxId) -> EngineState {
    if referable(s, client, tx) && s.records[tx].state == DisputeState::Disputed {
        let x = s.records[tx].amount;
        match shifted(s.accounts[client], zero_model(), negated(x)) {
            Some(a) => settled(s, client, tx, frozen(a), DisputeState::ChargedBack),
            None => s,
        }
    } else {
        s
    }
}

/// The engine after applying `t`.
pub open spec fn apply_step(s: EngineState, t: Transaction) -> EngineState {
    match t.kind {
        TransactionType::Deposit => deposit_step(s, t.client, t.tx, model_of(t.amount)),
        TransactionType::Withdrawal => withdraw_step(s, t.client, model_of(t.amount)),
        TransactionType::Dispute => dispute_step(s, t.client, t.tx),
        TransactionType::Resolve => resolve_step(s, t.client, t.tx),
        TransactionType::Chargeback => chargeback_step(s, t.client, t.tx),
    }
}

/// Whether neither balance of `a` carries more than `SCALE` fractional digits.
pub open spec fn kept_to_scale(a: AccountState) -> bool {
    a.available.2 <= SCALE && a.held.2 <= SCALE
}

/// Whether `x` (in units of 10^-28) can be written with a 96-bit mantissa at
/// `SCALE` fractional digits; sums of balances within this bound are exact.
pub open spec fn fits(x: int) -> bool {
    fits_at(x, SCALE)
}

/// Whether the usable part of `amount`, if any, is the amount cut toward zero
/// to `SCALE` fractional digits, with at most `SCALE` of them.
pub open spec fn cut_to_scale(amount: Option<AmountModel>) -> bool {
    usable(amount) is Some ==> {
        let x = usable(amount)->0;
        &&& value(x) == cut_toward_zero(value(amount->0), pow10((MAX_SCALE - SCALE) as nat) as int)
        &&& x.2 <= SCALE
    }
}

/// A deposit that took effect credited exactly its (cut) amount; one that
/// could be applied exactly took effect.
pub open spec fn deposit_moves(
    s: EngineState,
    s2: EngineState,
    client: ClientId,
    tx: TxId,
    amount: Option<AmountModel>,
) -> bool {
    usable(amount) is Some && !s.records.contains_key(tx) ==> {
        let x = value(usable(amount)->0);
        let a = account_of(s, client);
        let b = s2.accounts[client];
        &&& s2.records.contains_key(tx) ==> value(b.held) == value(a.held)
        &&& s2.records.contains_key(tx) && fits(value(a.available) + x) ==> value(b.available)
            == value(a.available) + x
        &&& !a.locked && fits(value(a.available) + x) && within_range(
            value(a.available) + x + value(a.held),
        ) ==> s2.records.contains_key(tx)
    }
}

/// A withdrawal that took effect was covered by the available funds and debited
/// exactly its (cut) amount; one that is covered and can be applied exactly
/// took effect.
pub open spec fn withdraw_moves(
    s: EngineState,
    s2: EngineState,
    client: ClientId,
    amount: Option<AmountModel>,
) -> bool {
    usable(amount) is Some ==> {
        let x = value(usable(amount)->0);
        let a = account_of(s, client);
        let b = s2.accounts[client];
        &&& b != a ==> value(a.available) >= x && value(b.held) == value(a.held)
        &&& b != a && fits(value(a.available) - x) ==> value(b.available) == value(a.available) - x
        &&& !a.locked && value(a.available) >= x && fits(value(a.available) - x) && within_range(
            value(a.available) - x + value(a.held),
        ) ==> value(b.available) == value(a.available) - x
    }
}

/// A dispute that took effect moved exactly the deposit's amount from the
/// available to the held funds; one that can be applied exactly took effect.
pub open spec fn dispute_moves(s: EngineState, s2: EngineState, client: ClientId, tx: TxId) -> bool {
    referable(s, client, tx) && s.records[tx].state == DisputeState::Undisputed ==> {
        let x = value(s.records[tx].amount);
        let a = s.accounts[client];
        let b = s2.accounts[client];
        let exact = fits(value(a.available) - x) && fits(value(a.held) + x);
        &&& s2.records[tx].state == DisputeState::Disputed && exact ==> value(b.available) == value(
            a.available,
        ) - x && value(b.held) == value(a.held) + x
        &&& exact && within_range(value(a.available) + value(a.held))
            ==> s2.records[tx].state == DisputeState::Disputed
    }
}

/// A resolve that took effect moved exactly the deposit's amount from the held
/// back to the available funds; one that can be applied exactly took effect.
pub open spec fn resolve_moves(s: EngineState, s2: EngineState, client: ClientId, tx: TxId) -> bool {
    referable(s, client, tx) && s.records[tx].state == DisputeState::Disputed ==> {
        let x = value(s.records[tx].amount);
        let a = s.accounts[client];
        let b = s2.accounts[client];
        let exact = fits(value(a.available) + x) && fits(value(a.held) - x);
        &&& s2.records[tx].state == DisputeState::Undisputed && exact ==> value(b.available)
            == value(a.available) + x && value(b.held) == value(a.held) - x
        &&& exact && within_range(value(a.available) + value(a.held))
            ==> s2.records[tx].state == DisputeState::Undisputed
    }
}

/// A chargeback that took effect removed exactly the deposit's amount from the
/// held funds and froze the account; one that can be applied exactly took effect.
pub open spec fn chargeback_moves(s: EngineState, s2: EngineState, client: ClientId, tx: TxId) -> bool {
    referable(s, client, tx) && s.records[tx].state == DisputeState::Disputed ==> {
        let x = value(s.records[tx].amount);
        let a = s.accounts[client];
        let b = s2.accounts[client];
        &&& s2.records[tx].state == DisputeState::ChargedBack ==> b.locked && value(b.available)
            == value(a.available)
        &&& s2.records[tx].state == DisputeState::ChargedBack && fits(value(a.held) - x) ==> value(
            b.held,
        ) == value(a.held) - x
        &&& fits(value(a.held) - x) && within_range(value(a.available) + value(a.held) - x)
            ==> s2.records[tx].state == DisputeState::ChargedBack
    }
}

/// How applying `t` to `s`, giving `s2`, moves the balances.
pub open spec fn balances_move(s: EngineState, s2: EngineState, t: Transaction) -> bool {
    match t.kind {
        TransactionType::Deposit => deposit_moves(s, s2, t.client, t.tx, model_of(t.amount)),
        TransactionType::Withdrawal => withdraw_moves(s, s2, t.client, model_of(t.amount)),
        TransactionType::Dispute => dispute_moves(s, s2, t.client, t.tx),
        TransactionType::Resolve => resolve_moves(s, s2, t.client, t.tx),
        TransactionType::Chargeback => chargeback_moves(s, s2, t.client, t.tx),
    }
}

/// Every account is filed under its own client, every recorded deposit belongs
/// to a client that has an account, and no balance or recorded amount carries
/// more than `SCALE` fractional digits.
pub open spec fn consistent(s: EngineState) -> bool {
    &&& forall|c: ClientId| #[trigger] s.accounts.contains_key(c) ==> s.accounts[c].client == c
    &&& forall|c: ClientId| #[trigger] s.accounts.contains_key(c) ==> kept_to_scale(s.accounts[c])
    &&& forall|t: TxId| #[trigger] s.records.contains_key(t) ==> s.accounts.contains_key(
        s.records[t].client,
    )
    &&& forall|t: TxId| #[trigger] s.records.contains_key(t) ==> s.records[t].amount.2 <= SCALE
}

/// Whether `list` holds every account of `accounts`, once each, ordered by client ID.
pub open spec fn listed_in_order(accounts: Map<ClientId, AccountState>, list: Seq<AccountState>) -> bool {
    &&& list.len() == accounts.dom().len()
    &&& forall|i: int|
        0 <= i < list.len() ==> #[trigger] accounts.contains_key(list[i].client) && accounts[list[i].client]
            == list[i]
    &&& forall|i: int, j: int| 0 <= i < j < list.len() ==> list[i].client < list[j].client
    &&& forall|c: ClientId|
        #[trigger] accounts.contains_key(c) ==> exists|i: int| 0 <= i < list.len() && list[i].client == c
}

/// A payments engine: it applies transactions to the accounts of its clients.
///
/// Accounts are kept in a map keyed by client ID, ordered, which makes the
/// report deterministic; the deposits a dispute can refer back to are kept in a
/// map keyed by transaction ID.
#[derive(Debug)]
pub struct Engine {
    accounts: BTreeMap<ClientId, Account>,
    transactions: Transactions,
}

impl View for Engine {
    type V = EngineState;

    closed spec fn view(&self) -> EngineState {
        EngineState {
            accounts: self.accounts@.map_values(|a: Account| a@),
            records: self.transactions@.map_values(|r: TransactionRecord| r@),
        }
    }
}

/// The amount to credit or debit, if the row carries one that a bank would act
/// on.
///
/// A missing amount, or a negative one, is an error on the partner's side: a
/// negative deposit is a withdrawal in disguise, and would bypass the check that
/// available funds cover it. A finer amount than the report shows is cut to
/// `SCALE` fractional digits, so that every balance is exactly as precise as
/// the report that prints it.
fn usable_amount(amount: Option<Amount>) -> (r: Option<Amount>)
    ensures
        model_of(r) == usable(model_of(amount)),
        cut_to_scale(model_of(amount)),
{
    match amount {
        Some(a) => if a.is_sign_positive() {
            proof {
                use_type_invariant(&a);
                lemma_truncated(a@, SCALE);
            }
            Some(trunc_with_scale(a, SCALE))
        } else {
            None
        },
        None => None,
    }
}

impl Default for Engine {
    fn default() -> (r: Engine)
        ensures
            r@.accounts == Map::<ClientId, AccountState>::empty(),
            r@.records == Map::<TxId, RecordState>::empty(),
    {
        Engine::new()
    }
}

impl Engine {
    /// The engine's maps stay consistent with each other.
    #[verifier::type_invariant]
    pub open spec fn well_formed(self) -> bool {
        consistent(self@)
    }

    /// Creates an engine with no clients and no history.
    pub fn new() -> (r: Engine)
        ensures
            r@.accounts == Map::<ClientId, AccountState>::empty(),
            r@.records == Map::<TxId, RecordState>::empty(),
    {
        let r = Engine { accounts: BTreeMap::new(), transactions: HashMap::new() };
        assert(r@.accounts =~= Map::<ClientId, AccountState>::empty());
        assert(r@.records =~= Map::<TxId, RecordState>::empty());
        r
    }

    /// Applies `transaction`, ignoring it if it cannot be applied.
    ///
    /// A deposit or a withdrawal opens the account of the client it names, even
    /// when it is itself rejected; a dispute, resolve or chargeback only ever
    /// refers back to an account that exists.
    pub fn apply(&mut self, transaction: &Transaction)
        ensures
            final(self)@ == apply_step(old(self)@, *transaction),
            balances_move(old(self)@, final(self)@, *transaction),
            transaction.kind == TransactionType::Deposit || transaction.kind
                == TransactionType::Withdrawal ==> cut_to_scale(model_of(transaction.amount)),
            consistent(final(self)@),
    {
        let Transaction { kind, client, tx, amount } = *transaction;
        match kind {
            TransactionType::Deposit => self.deposit(client, tx, amount),
            TransactionType::Withdrawal => self.withdraw(client, amount),
            TransactionType::Dispute => self.dispute(client, tx),
            TransactionType::Resolve => self.resolve(client, tx),
            TransactionType::Chargeback => self.chargeback(client, tx),
        }
        proof {
            use_type_invariant(&*self);
        }
    }

    /// Takes the two maps out of the engine, leaving it empty.
    fn take_maps(&mut self) -> (r: (BTreeMap<ClientId, Account>, Transactions))
        ensures
            r.0@.map_values(|a: Account| a@) == old(self)@.accounts,
            r.1@.map_values(|r: TransactionRecord| r@) == old(self)@.records,
            consistent(old(self)@),
    {
        let mut taken = Engine::new();
        std::mem::swap(self, &mut taken);
        proof {
            use_type_invariant(&taken);
        }
        let Engine { accounts, transactions } = taken;
        (accounts, transactions)
    }

    /// The state of every account the engine has seen, ordered by client ID.
    pub fn accounts(&self) -> (r: Vec<Account>)
        ensures
            listed_in_order(self@.accounts, r@.map_values(|a: Account| a@)),
    {
        proof {
            use_type_invariant(self);
        }
        let mut result: Vec<Account> = Vec::new();
        let ghost walked = spec_values_iter(&self.accounts).remaining();
        for a in it: self.accounts.values()
            invariant
                it.seq() == walked,
                result@.len() == it.index(),
                forall|i: int| 0 <= i < it.index() ==> result@[i] == *it.seq()[i],
        {
            result.push(*a);
        }
        proof {
            let m = self.accounts@;
            let keys = choose|keys: Seq<ClientId>|
                {
                    &&& increasing_seq(keys)
                    &&& keys.to_set() == m.dom()
                    &&& keys.no_duplicates()
                    &&& walked == keys.map(|i: int, k: ClientId| &m[k])
                };
            let list = result@.map_values(|a: Account| a@);
            keys.unique_seq_to_set();
            assert(walked.len() == keys.len());
            assert(result@.len() == keys.len());
            assert forall|i: int| 0 <= i < list.len() implies #[trigger] list[i].client == keys[i] && m.contains_key(keys[i]) && self@.accounts[keys[i]] == list[i] by {
                assert(keys.to_set().contains(keys[i]));
                assert(result@[i] == *walked[i]);
                assert(*walked[i] == m[keys[i]]);
                assert(m.contains_key(keys[i]));
                assert(list[i] == m[keys[i]]@);
                assert(self@.accounts.contains_key(keys[i]));
                assert(self@.accounts[keys[i]] == m[keys[i]]@);
            }
            assert forall|i: int, j: int| 0 <= i < j < list.len() implies list[i].client < list[j].client by {
                assert(list[i].client == keys[i]);
                assert(list[j].client == keys[j]);
                assert(keys[i].cmp_spec(&keys[j]) is Less);
            }
            assert(self@.accounts.dom() =~= m.dom());
            assert forall|c: ClientId| #[trigger] self@.accounts.contains_key(c) implies exists|i: int| 0 <= i < list.len() && list[i].client == c by {
                assert(keys.to_set().contains(c));
                let i = choose|i: int| 0 <= i < keys.len() && keys[i] == c;
                assert(list[i].client == keys[i]);
            }
        }
        result
    }

    /// Files `account` under `client`.
    fn store_account(&mut self, client: ClientId, account: Account)
        requires
            account@.client == client,
            kept_to_scale(account@),
        ensures
            final(self)@ == with_account(old(self)@, client, account@),
    {
        let (mut accounts, transactions) = self.take_maps();
        accounts.insert(client, account);
        assert(accounts@.map_values(|a: Account| a@) =~= old(self)@.accounts.insert(
            client,
            account@,
        ));
        let rebuilt = Engine { accounts, transactions };
        *self = rebuilt;
    }

    /// The client's account, opening an empty one if this is their first
    /// transaction.
    fn account(&mut self, client: ClientId) -> (r: Account)
        ensures
            r@ == account_of(old(self)@, client),
            kept_to_scale(r@),
            final(self)@ == with_account(old(self)@, client, r@),
    {
        proof {
            use_type_invariant(&*self);
        }
        match self.accounts.get(&client) {
            Some(a) => {
                let a = *a;
                assert(old(self)@.accounts.insert(client, a@) =~= old(self)@.accounts);
                assert(self@.accounts.contains_key(client));
                a
            },
            None => {
                let a = Account::new(client);
                assert(a@ == opened(client));
                self.store_account(client, a);
                a
            },
        }
    }

    /// Credits the client's account and records the deposit, so that it can be
    /// disputed later.
    ///
    /// A deposit whose ID has already been used is ignored: transaction IDs are
    /// globally unique, so a repeated one is an error on the partner's side, and
    /// honouring it would make a later dispute ambiguous.
    fn deposit(&mut self, client: ClientId, tx: TxId, amount: Option<Amount>)
        ensures
            final(self)@ == deposit_step(old(self)@, client, tx, model_of(amount)),
            deposit_moves(old(self)@, final(self)@, client, tx, model_of(amount)),
            cut_to_scale(model_of(amount)),
    {
        proof {
            use_type_invariant(&*self);
        }
        let mut account = self.account(client);
        let amount = match usable_amount(amount) {
            Some(a) => a,
            None => return,
        };
        if self.transactions.contains_key(&tx) {
            return;
        }
        proof {
            if fits(value(account@.available) + value(amount@)) {
                lemma_exact_at(account@.available, amount@, SCALE);
            }
        }
        if account.is_locked() || !account.deposit(amount) {
            return;
        }
        self.store_account(client, account);
        self.store_record(tx, TransactionRecord::new(client, amount));
        assert(self@.accounts =~= old(self)@.accounts.insert(client, account@));
    }

    /// Debits the client's account, unless the available funds do not cover the
    /// withdrawal.
    ///
    /// Withdrawals are not recorded, because only deposits can be disputed.
    fn withdraw(&mut self, client: ClientId, amount: Option<Amount>)
        ensures
            final(self)@ == withdraw_step(old(self)@, client, model_of(amount)),
            withdraw_moves(old(self)@, final(self)@, client, model_of(amount)),
            cut_to_scale(model_of(amount)),
    {
        proof {
            use_type_invariant(&*self);
        }
        let mut account = self.account(client);
        let amount = match usable_amount(amount) {
            Some(a) => a,
            None => return,
        };
        if account.is_locked() {
            return;
        }
        proof {
            lemma_negated_value(amount@);
            if fits(value(account@.available) - value(amount@)) {
                lemma_exact_at(account@.available, negated(amount@), SCALE);
            }
        }
        if account.withdraw(amount) {
            self.store_account(client, account);
            assert(self@.accounts =~= old(self)@.accounts.insert(client, account@));
        }
    }

    /// The account and the recorded deposit that a dispute, resolve or
    /// chargeback refers to, if the reference can be honoured at all.
    ///
    /// It cannot when the transaction is unknown, when it belongs to another
    /// client (a client may only dispute their own transactions), or when the
    /// account is frozen.
    fn disputable(&self, client: ClientId, tx: TxId) -> (r: Option<(Account, TransactionRecord)>)
        ensures
            r is Some == referable(self@, client, tx),
            r matches Some((a, rec)) ==> a@ == self@.accounts[client] && rec@ == self@.records[tx],
    {
        proof {
            use_type_invariant(self);
        }
        let record = match self.transactions.get(&tx) {
            Some(r) => *r,
            None => return None,
        };
        if record.client != client {
            return None;
        }
        let account = match self.accounts.get(&client) {
            Some(a) => *a,
            None => return None,
        };
        if account.is_locked() {
            return None;
        }
        Some((account, record))
    }

    /// Files the account and the record a settled dispute step produced.
    fn settle(&mut self, client: ClientId, tx: TxId, account: Account, record: TransactionRecord)
        requires
            account@.client == client,
            kept_to_scale(account@),
            record.client == client,
            old(self)@.records.contains_key(tx),
            old(self)@.records[tx].client == client,
            old(self)@.records[tx].amount == record.amount@,
        ensures
            final(self)@ == settled(old(self)@, client, tx, account@, record.state),
    {
        proof {
            use_type_invariant(&*self);
        }
        self.store_account(client, account);
        self.store_record(tx, record);
    }

    /// Files `record` under `tx`.
    fn store_record(&mut self, tx: TxId, record: TransactionRecord)
        requires
            old(self)@.accounts.contains_key(record.client),
            record.amount@.2 <= SCALE,
        ensures
            final(self)@.accounts == old(self)@.accounts,
            final(self)@.records == old(self)@.records.insert(tx, record@),
    {
        let (accounts, mut transactions) = self.take_maps();
        transactions.insert(tx, record);
        assert(transactions@.map_values(|r: TransactionRecord| r@) =~= old(self)@.records.insert(
            tx,
            record@,
        ));
        let rebuilt = Engine { accounts, transactions };
        *self = rebuilt;
    }

    /// Holds the funds of the disputed deposit.
    ///
    /// Only deposits are disputable: holding the amount of a withdrawal would
    /// take funds the client never received. The available funds may go
    /// negative, when the deposit under dispute has already been spent: the
    /// total must not change, so the held amount comes out of the available
    /// funds whether they cover it or not.
    fn dispute(&mut self, client: ClientId, tx: TxId)
        ensures
            final(self)@ == dispute_step(old(self)@, client, tx),
            dispute_moves(old(self)@, final(self)@, client, tx),
    {
        proof {
            use_type_invariant(&*self);
        }
        let (mut account, mut record) = match self.disputable(client, tx) {
            Some(found) => found,
            None => return,
        };
        proof {
            let x = record.amount@;
            assert(self@.accounts.contains_key(client));
            assert(self@.records.contains_key(tx));
            lemma_negated_value(x);
            if fits(value(account@.available) - value(x)) {
                lemma_exact_at(account@.available, negated(x), SCALE);
            }
            if fits(value(account@.held) + value(x)) {
                lemma_exact_at(account@.held, x, SCALE);
            }
        }
        if record.state == DisputeState::Undisputed && account.hold(record.amount) {
            record.state = DisputeState::Disputed;
            self.settle(client, tx, account, record);
        }
    }

    /// Releases the funds held for a dispute that ended without a chargeback.
    fn resolve(&mut self, client: ClientId, tx: TxId)
        ensures
            final(self)@ == resolve_step(old(self)@, client, tx),
            resolve_moves(old(self)@, final(self)@, client, tx),
    {
        proof {
            use_type_invariant(&*self);
        }
        let (mut account, mut record) = match self.disputable(client, tx) {
            Some(found) => found,
            None => return,
        };
        proof {
            let x = record.amount@;
            assert(self@.accounts.contains_key(client));
            assert(self@.records.contains_key(tx));
            lemma_negated_value(x);
            if fits(value(account@.available) + value(x)) {
                lemma_exact_at(account@.available, x, SCALE);
            }
            if fits(value(account@.held) - value(x)) {
                lemma_exact_at(account@.held, negated(x), SCALE);
            }
        }
        if record.state == DisputeState::Disputed && account.release(record.amount) {
            record.state = DisputeState::Undisputed;
            self.settle(client, tx, account, record);
        }
    }

    /// Reverses the disputed deposit and freezes the account.
    fn chargeback(&mut self, client: ClientId, tx: TxId)
        ensures
            final(self)@ == chargeback_step(old(self)@, client, tx),
            chargeback_moves(old(self)@, final(self)@, client, tx),
    {
        proof {
            use_type_invariant(&*self);
        }
        let (mut account, mut record) = match self.disputable(client, tx) {
            Some(found) => found,
            None => return,
        };
        proof {
            let x = record.amount@;
            assert(self@.accounts.contains_key(client));
            assert(self@.records.contains_key(tx));
            lemma_negated_value(x);
            if fits(value(account@.held) - value(x)) {
                lemma_exact_at(account@.held, negated(x), SCALE);
            }
        }
        if record.state == DisputeState::Disputed && account.reverse(record.amount) {
            record.state = DisputeState::ChargedBack;
            self.settle(client, tx, account, record);
        }
    }
}

} // verus!
