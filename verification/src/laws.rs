//! What holds of the engine over every transaction and every state.
//!
//! Each law is stated over `apply_step` (and `balances_move`), which is what
//! `Engine::apply` ensures of the state it leaves behind.
use vstd::prelude::*;

use crate::account::within_range;
use crate::amount::{cut_toward_zero, model_of, pow10, value, MAX_SCALE};
use crate::account::AccountState;
use crate::amount::AmountModel;
use crate::engine::{
    account_of, apply_step, balances_move, consistent, cut_to_scale, fits, opened, referable,
    usable, with_account, EngineState,
};
use crate::output::{reported_exactly, reports, AccountReport};
use crate::transaction::{
    ClientId, DisputeState, RecordState, Transaction, TransactionType, TxId, SCALE,
};

verus! {

/// What `Engine::apply` ensures of the state `s2` it leaves after applying `t`
/// to `s`.
pub open spec fn applies(s: EngineState, t: Transaction, s2: EngineState) -> bool {
    &&& s2 == apply_step(s, t)
    &&& balances_move(s, s2, t)
    &&& t.kind == TransactionType::Deposit || t.kind == TransactionType::Withdrawal ==> cut_to_scale(
        model_of(t.amount),
    )
    &&& consistent(s2)
}

/// Whether a dispute lifecycle allows a record to move from `before` to `after`
/// on a transaction of kind `kind`.
pub open spec fn lifecycle_step(before: DisputeState, after: DisputeState, kind: TransactionType) -> bool {
    ||| after == before
    ||| kind == TransactionType::Dispute && before == DisputeState::Undisputed && after
        == DisputeState::Disputed
    ||| kind == TransactionType::Resolve && before == DisputeState::Disputed && after
        == DisputeState::Undisputed
    ||| kind == TransactionType::Chargeback && before == DisputeState::Disputed && after
        == DisputeState::ChargedBack
}

/// A frozen account accepts no further transactions of any kind: a transaction
/// of a client whose account is frozen leaves the engine exactly as it was.
pub proof fn law_frozen_account_is_final(s: EngineState, t: Transaction)
    requires
        s.accounts.contains_key(t.client),
        s.accounts[t.client].locked,
    ensures
        apply_step(s, t) == s,
{
    assert(s.accounts.insert(t.client, s.accounts[t.client]) =~= s.accounts);
}

/// A transaction never touches the account of another client: every other
/// account is there after it exactly when it was there before, and unchanged.
pub proof fn law_other_accounts_untouched(s: EngineState, t: Transaction, c: ClientId)
    requires
        c != t.client,
    ensures
        apply_step(s, t).accounts.contains_key(c) == s.accounts.contains_key(c),
        s.accounts.contains_key(c) ==> apply_step(s, t).accounts[c] == s.accounts[c],
{
}

/// A deposit or a withdrawal opens the account of the client it names, even
/// when it is itself rejected; a dispute, resolve or chargeback never opens an
/// account. An account opens empty and not frozen.
pub proof fn law_accounts_opened(s: EngineState, t: Transaction)
    ensures
        t.kind == TransactionType::Deposit || t.kind == TransactionType::Withdrawal ==> apply_step(
            s,
            t,
        ).accounts.dom() == s.accounts.dom().insert(t.client),
        !(t.kind == TransactionType::Deposit || t.kind == TransactionType::Withdrawal) ==> apply_step(
            s,
            t,
        ).accounts.dom() == s.accounts.dom(),
        !s.accounts.contains_key(t.client) && (t.kind == TransactionType::Deposit || t.kind
            == TransactionType::Withdrawal) && usable(model_of(t.amount)) is None ==> apply_step(
            s,
            t,
        ).accounts[t.client] == opened(t.client),
{
    let s2 = apply_step(s, t);
    if t.kind == TransactionType::Deposit || t.kind == TransactionType::Withdrawal {
        assert(s2.accounts.dom() =~= s.accounts.dom().insert(t.client));
    } else {
        if referable(s, t.client, t.tx) {
            assert(s2.accounts.dom() =~= s.accounts.dom());
        }
    }
}

/// A transaction ID is used at most once: a deposit reusing the ID of a recorded
/// deposit moves no money and records nothing (it only opens the client's
/// account, as every deposit does).
pub proof fn law_transaction_id_used_once(s: EngineState, t: Transaction)
    requires
        t.kind == TransactionType::Deposit,
        s.records.contains_key(t.tx),
    ensures
        apply_step(s, t).records == s.records,
        apply_step(s, t).accounts == s.accounts.insert(t.client, account_of(s, t.client)),
{
}

/// A deposit or a withdrawal without an amount, or with a negative one, moves
/// no money and records nothing (it only opens the client's account).
pub proof fn law_unusable_amount_is_ignored(s: EngineState, t: Transaction)
    requires
        t.kind == TransactionType::Deposit || t.kind == TransactionType::Withdrawal,
        usable(model_of(t.amount)) is None,
    ensures
        apply_step(s, t) == with_account(s, t.client, account_of(s, t.client)),
{
}

/// A dispute, resolve or chargeback must refer to a recorded deposit of the
/// client that raises it; any other is ignored.
pub proof fn law_only_the_owner_may_dispute(s: EngineState, t: Transaction)
    requires
        t.kind == TransactionType::Dispute || t.kind == TransactionType::Resolve || t.kind
            == TransactionType::Chargeback,
        !(s.records.contains_key(t.tx) && s.records[t.tx].client == t.client),
    ensures
        apply_step(s, t) == s,
{
}

/// An amount is cut toward zero to four fractional digits, never rounded: the
/// deposit a new record holds is the deposited amount so cut.
pub proof fn law_deposits_are_cut_not_rounded(s: EngineState, t: Transaction, s2: EngineState)
    requires
        applies(s, t, s2),
        t.kind == TransactionType::Deposit,
        !s.records.contains_key(t.tx),
        s2.records.contains_key(t.tx),
    ensures
        value(s2.records[t.tx].amount) == cut_toward_zero(
            value(model_of(t.amount)->0),
            pow10((MAX_SCALE - SCALE) as nat) as int,
        ),
        s2.records[t.tx].amount.2 <= SCALE,
{
}

/// Only deposits are recorded, each as undisputed with its client and its cut
/// amount; a recorded deposit keeps its client and amount for good, and its
/// dispute state only moves along the lifecycle (a dispute opens, a resolve or
/// a chargeback closes, and a charged-back deposit stays so).
pub proof fn law_record_lifecycle(s: EngineState, t: Transaction)
    ensures
        t.kind != TransactionType::Deposit ==> apply_step(s, t).records.dom() == s.records.dom(),
        t.kind == TransactionType::Deposit ==> apply_step(s, t).records.dom() == s.records.dom()
            || apply_step(s, t).records.dom() == s.records.dom().insert(t.tx),
        forall|tx: TxId| #[trigger]
            s.records.contains_key(tx) ==> apply_step(s, t).records.contains_key(tx) && apply_step(
                s,
                t,
            ).records[tx].client == s.records[tx].client && apply_step(s, t).records[tx].amount
                == s.records[tx].amount && lifecycle_step(
                s.records[tx].state,
                apply_step(s, t).records[tx].state,
                t.kind,
            ),
        t.kind == TransactionType::Deposit && !s.records.contains_key(t.tx) && apply_step(
            s,
            t,
        ).records.contains_key(t.tx) ==> apply_step(s, t).records[t.tx].client == t.client
            && usable(model_of(t.amount)) == Some(apply_step(s, t).records[t.tx].amount)
            && apply_step(s, t).records[t.tx].state == DisputeState::Undisputed,
{
    let s2 = apply_step(s, t);
    if t.kind == TransactionType::Deposit {
        if s2.records.contains_key(t.tx) && !s.records.contains_key(t.tx) {
            assert(s2.records.dom() =~= s.records.dom().insert(t.tx));
        } else {
            assert(s2.records.dom() =~= s.records.dom());
        }
    } else if t.kind != TransactionType::Withdrawal {
        assert(s2.records.dom() =~= s.records.dom());
    }
}

/// Only a chargeback freezes an account, and a frozen account stays frozen.
pub proof fn law_only_chargebacks_freeze(s: EngineState, t: Transaction, c: ClientId)
    requires
        apply_step(s, t).accounts.contains_key(c),
    ensures
        s.accounts.contains_key(c) && s.accounts[c].locked ==> apply_step(s, t).accounts[c].locked,
        apply_step(s, t).accounts[c].locked && !(s.accounts.contains_key(c)
            && s.accounts[c].locked) ==> t.kind == TransactionType::Chargeback,
{
    if s.accounts.contains_key(c) && s.accounts[c].locked {
        if c == t.client {
            law_frozen_account_is_final(s, t);
        }
    }
}

/// A dispute that took effect leaves the client's total funds unchanged: what
/// leaves the available funds is exactly what the held funds gain.
pub proof fn law_dispute_keeps_the_total(s: EngineState, t: Transaction, s2: EngineState)
    requires
        applies(s, t, s2),
        t.kind == TransactionType::Dispute,
        referable(s, t.client, t.tx),
        s.records[t.tx].state == DisputeState::Undisputed,
        s2.records[t.tx].state == DisputeState::Disputed,
        fits(value(s.accounts[t.client].available) - value(s.records[t.tx].amount)),
        fits(value(s.accounts[t.client].held) + value(s.records[t.tx].amount)),
    ensures
        value(s2.accounts[t.client].available) + value(s2.accounts[t.client].held) == value(
            s.accounts[t.client].available,
        ) + value(s.accounts[t.client].held),
        value(s2.accounts[t.client].held) == value(s.accounts[t.client].held) + value(
            s.records[t.tx].amount,
        ),
{
}

/// A dispute holds the disputed deposit: when it refers to an undisputed deposit
/// of the client's own, in an account that is not frozen, and the balances can
/// be moved exactly, the deposit's amount leaves the available funds and joins
/// the held funds, the account stays open and unfrozen, and the deposit is under
/// dispute; any other dispute leaves the engine as it was.
pub proof fn law_dispute_holds_the_deposit(s: EngineState, t: Transaction, s2: EngineState)
    requires
        applies(s, t, s2),
        t.kind == TransactionType::Dispute,
    ensures
        !((s.records.contains_key(t.tx) && s.records[t.tx].client == t.client && s.accounts.contains_key(
            t.client,
        ) && !s.accounts[t.client].locked) && s.records[t.tx].state == DisputeState::Undisputed)
            ==> s2 == s,
        (s.records.contains_key(t.tx) && s.records[t.tx].client == t.client && s.accounts.contains_key(
            t.client,
        ) && !s.accounts[t.client].locked) && s.records[t.tx].state == DisputeState::Undisputed && fits(
            value(s.accounts[t.client].available) - value(s.records[t.tx].amount),
        ) && fits(value(s.accounts[t.client].held) + value(s.records[t.tx].amount))
            && within_range(
            value(s.accounts[t.client].available) + value(s.accounts[t.client].held),
        ) ==> {
            &&& s2.records[t.tx].state == DisputeState::Disputed
            &&& s2.records[t.tx].amount == s.records[t.tx].amount
            &&& value(s2.accounts[t.client].available) == value(s.accounts[t.client].available)
                - value(s.records[t.tx].amount)
            &&& value(s2.accounts[t.client].held) == value(s.accounts[t.client].held) + value(
                s.records[t.tx].amount,
            )
            &&& !s2.accounts[t.client].locked
            &&& s2.accounts.dom() == s.accounts.dom()
        },
{
    if (s.records.contains_key(t.tx) && s.records[t.tx].client == t.client && s.accounts.contains_key(
            t.client,
        ) && !s.accounts[t.client].locked) && s.records[t.tx].state == DisputeState::Undisputed {
        assert(s2.accounts.dom() =~= s.accounts.dom());
    }
}

/// A resolve releases the disputed deposit: when it refers to a deposit of the
/// client's own under dispute, in an account that is not frozen, and the
/// balances can be moved exactly, the deposit's amount leaves the held funds and
/// returns to the available funds, the account stays unfrozen, and the deposit
/// is undisputed again; any other resolve leaves the engine as it was.
pub proof fn law_resolve_releases_the_deposit(s: EngineState, t: Transaction, s2: EngineState)
    requires
        applies(s, t, s2),
        t.kind == TransactionType::Resolve,
    ensures
        !((s.records.contains_key(t.tx) && s.records[t.tx].client == t.client && s.accounts.contains_key(
            t.client,
        ) && !s.accounts[t.client].locked) && s.records[t.tx].state == DisputeState::Disputed) ==> s2
            == s,
        (s.records.contains_key(t.tx) && s.records[t.tx].client == t.client && s.accounts.contains_key(
            t.client,
        ) && !s.accounts[t.client].locked) && s.records[t.tx].state == DisputeState::Disputed && fits(
            value(s.accounts[t.client].available) + value(s.records[t.tx].amount),
        ) && fits(value(s.accounts[t.client].held) - value(s.records[t.tx].amount))
            && within_range(
            value(s.accounts[t.client].available) + value(s.accounts[t.client].held),
        ) ==> {
            &&& s2.records[t.tx].state == DisputeState::Undisputed
            &&& s2.records[t.tx].amount == s.records[t.tx].amount
            &&& value(s2.accounts[t.client].available) == value(s.accounts[t.client].available)
                + value(s.records[t.tx].amount)
            &&& value(s2.accounts[t.client].held) == value(s.accounts[t.client].held) - value(
                s.records[t.tx].amount,
            )
            &&& !s2.accounts[t.client].locked
            &&& s2.accounts.dom() == s.accounts.dom()
        },
{
    if (s.records.contains_key(t.tx) && s.records[t.tx].client == t.client && s.accounts.contains_key(
            t.client,
        ) && !s.accounts[t.client].locked) && s.records[t.tx].state == DisputeState::Disputed {
        assert(s2.accounts.dom() =~= s.accounts.dom());
    }
}

/// A chargeback reverses the disputed deposit: when it refers to a deposit of
/// the client's own under dispute, in an account that is not frozen, and the
/// held funds can be reduced exactly, the deposit's amount leaves the held
/// funds (and so the total), the available funds stay as they were, the
/// account is frozen, and the deposit is charged back for good; any other
/// chargeback leaves the engine as it was.
pub proof fn law_chargeback_reverses_the_deposit(s: EngineState, t: Transaction, s2: EngineState)
    requires
        applies(s, t, s2),
        t.kind == TransactionType::Chargeback,
    ensures
        !((s.records.contains_key(t.tx) && s.records[t.tx].client == t.client && s.accounts.contains_key(
            t.client,
        ) && !s.accounts[t.client].locked) && s.records[t.tx].state == DisputeState::Disputed) ==> s2
            == s,
        (s.records.contains_key(t.tx) && s.records[t.tx].client == t.client && s.accounts.contains_key(
            t.client,
        ) && !s.accounts[t.client].locked) && s.records[t.tx].state == DisputeState::Disputed && fits(
            value(s.accounts[t.client].held) - value(s.records[t.tx].amount),
        ) && within_range(
            value(s.accounts[t.client].available) + value(s.accounts[t.client].held) - value(
                s.records[t.tx].amount,
            ),
        ) ==> {
            &&& s2.records[t.tx].state == DisputeState::ChargedBack
            &&& s2.records[t.tx].amount == s.records[t.tx].amount
            &&& value(s2.accounts[t.client].available) == value(s.accounts[t.client].available)
            &&& value(s2.accounts[t.client].held) == value(s.accounts[t.client].held) - value(
                s.records[t.tx].amount,
            )
            &&& s2.accounts[t.client].locked
            &&& s2.accounts.dom() == s.accounts.dom()
        },
{
    if (s.records.contains_key(t.tx) && s.records[t.tx].client == t.client && s.accounts.contains_key(
            t.client,
        ) && !s.accounts[t.client].locked) && s.records[t.tx].state == DisputeState::Disputed {
        assert(s2.accounts.dom() =~= s.accounts.dom());
    }
}

/// Every deposit of a positive amount is credited: when its transaction ID is
/// new, the client's account (opened if need be) is not frozen, and the sums
/// stay exact and within range, the deposit is recorded, undisputed, under its
/// client with the amount cut toward zero to four fractional digits, and that
/// cut amount is added to the available funds, the held funds unchanged.
pub proof fn law_positive_deposit_is_credited(
    s: EngineState,
    t: Transaction,
    s2: EngineState,
    a: AmountModel,
)
    requires
        applies(s, t, s2),
        t.kind == TransactionType::Deposit,
        model_of(t.amount) == Some(a),
        !a.0,
        !s.records.contains_key(t.tx),
        !account_of(s, t.client).locked,
        fits(
            value(account_of(s, t.client).available) + cut_toward_zero(
                value(a),
                pow10((MAX_SCALE - SCALE) as nat) as int,
            ),
        ),
        within_range(
            value(account_of(s, t.client).available) + cut_toward_zero(
                value(a),
                pow10((MAX_SCALE - SCALE) as nat) as int,
            ) + value(account_of(s, t.client).held),
        ),
    ensures
        s2.records.contains_key(t.tx),
        s2.records[t.tx].client == t.client,
        s2.records[t.tx].state == DisputeState::Undisputed,
        value(s2.records[t.tx].amount) == cut_toward_zero(
            value(a),
            pow10((MAX_SCALE - SCALE) as nat) as int,
        ),
        s2.accounts.contains_key(t.client),
        value(s2.accounts[t.client].available) == value(account_of(s, t.client).available)
            + cut_toward_zero(value(a), pow10((MAX_SCALE - SCALE) as nat) as int),
        value(s2.accounts[t.client].held) == value(account_of(s, t.client).held),
{
}

/// Every withdrawal of a positive amount that the available funds cover is
/// debited: when the client's account (opened if need be) is not frozen, its
/// available funds are at least the amount cut toward zero to four fractional
/// digits, and the difference stays exact and within range, exactly that cut
/// amount leaves the available funds, the held funds unchanged.
pub proof fn law_covered_withdrawal_is_debited(
    s: EngineState,
    t: Transaction,
    s2: EngineState,
    a: AmountModel,
)
    requires
        applies(s, t, s2),
        t.kind == TransactionType::Withdrawal,
        model_of(t.amount) == Some(a),
        !a.0,
        !account_of(s, t.client).locked,
        value(account_of(s, t.client).available) >= cut_toward_zero(
            value(a),
            pow10((MAX_SCALE - SCALE) as nat) as int,
        ),
        fits(
            value(account_of(s, t.client).available) - cut_toward_zero(
                value(a),
                pow10((MAX_SCALE - SCALE) as nat) as int,
            ),
        ),
        within_range(
            value(account_of(s, t.client).available) - cut_toward_zero(
                value(a),
                pow10((MAX_SCALE - SCALE) as nat) as int,
            ) + value(account_of(s, t.client).held),
        ),
    ensures
        s2.accounts.contains_key(t.client),
        value(s2.accounts[t.client].available) == value(account_of(s, t.client).available)
            - cut_toward_zero(value(a), pow10((MAX_SCALE - SCALE) as nat) as int),
        value(s2.accounts[t.client].held) == value(account_of(s, t.client).held),
{
}

/// Every account the engine keeps is reported exactly: its report row writes
/// its available, held and total funds with four fractional digits and nothing
/// rounded, and the reported total is the sum of the other two whenever that
/// sum is exact.
pub proof fn law_accounts_are_reported_exactly(s: EngineState, c: ClientId, row: AccountReport)
    requires
        consistent(s),
        s.accounts.contains_key(c),
        reports(row, s.accounts[c]),
    ensures
        reported_exactly(row, s.accounts[c]),
{
}

/// A resolve undoes the dispute before it: after a dispute and a resolve of the
/// same deposit, the client's balances are what they were before the dispute,
/// and the deposit is undisputed again (and so can be disputed anew). Stated
/// where the balances involved stay within what four fractional digits and a
/// 96-bit mantissa can hold, so that no sum is rounded.
pub proof fn law_resolve_undoes_dispute(
    s0: EngineState,
    dispute: Transaction,
    s1: EngineState,
    resolve: Transaction,
    s2: EngineState,
)
    requires
        applies(s0, dispute, s1),
        applies(s1, resolve, s2),
        dispute.kind == TransactionType::Dispute,
        resolve.kind == TransactionType::Resolve,
        resolve.client == dispute.client,
        resolve.tx == dispute.tx,
        referable(s0, dispute.client, dispute.tx),
        s0.records[dispute.tx].state == DisputeState::Undisputed,
        s1.records[dispute.tx].state == DisputeState::Disputed,
        fits(value(s0.accounts[dispute.client].available) - value(s0.records[dispute.tx].amount)),
        fits(value(s0.accounts[dispute.client].held) + value(s0.records[dispute.tx].amount)),
        fits(value(s0.accounts[dispute.client].available)),
        fits(value(s0.accounts[dispute.client].held)),
        within_range(
            value(s0.accounts[dispute.client].available) + value(s0.accounts[dispute.client].held),
        ),
    ensures
        s2.records[dispute.tx].state == DisputeState::Undisputed,
        value(s2.accounts[dispute.client].available) == value(
            s0.accounts[dispute.client].available,
        ),
        value(s2.accounts[dispute.client].held) == value(s0.accounts[dispute.client].held),
{
    let c = dispute.client;
    let tx = dispute.tx;
    assert(s1.accounts.contains_key(c));
    assert(s1.records.contains_key(tx));
    assert(s1.records[tx].client == c);
    assert(s1.records[tx].amount == s0.records[tx].amount);
    assert(!s1.accounts[c].locked);
    assert(referable(s1, c, tx));
}

/// A withdrawal never takes more than the available funds: when it changes the
/// account, the available funds covered it, and (computed exactly) they do not
/// go below zero.
pub proof fn law_withdrawal_never_overdraws(s: EngineState, t: Transaction, s2: EngineState)
    requires
        applies(s, t, s2),
        t.kind == TransactionType::Withdrawal,
        usable(model_of(t.amount)) is Some,
        s2.accounts[t.client] != account_of(s, t.client),
        fits(value(account_of(s, t.client).available) - value(usable(model_of(t.amount))->0)),
    ensures
        value(s2.accounts[t.client].available) >= 0,
        value(s2.accounts[t.client].available) == value(account_of(s, t.client).available) - value(
            usable(model_of(t.amount))->0,
        ),
{
}

/// The amount that the record of `t` holds under dispute for client `c`: its
/// amount when it is a deposit of `c` under dispute, and nothing otherwise.
pub open spec fn disputed_amount(records: Map<TxId, RecordState>, c: ClientId, t: TxId) -> int {
    if records.contains_key(t) && records[t].client == c && records[t].state
        == DisputeState::Disputed {
        value(records[t].amount)
    } else {
        0
    }
}

/// The amounts under dispute for client `c` among the records of the
/// transaction IDs below `n`.
pub open spec fn disputed_below(records: Map<TxId, RecordState>, c: ClientId, n: nat) -> int
    decreases n,
{
    if n == 0 {
        0
    } else {
        disputed_below(records, c, (n - 1) as nat) + disputed_amount(records, c, (n - 1) as TxId)
    }
}

/// The sum of the amounts of the deposits of client `c` under dispute.
pub open spec fn disputed_total(records: Map<TxId, RecordState>, c: ClientId) -> int {
    disputed_below(records, c, 0x1_0000_0000nat)
}

/// Whether every account holds exactly the deposits of its client under dispute.
pub open spec fn held_matches(s: EngineState) -> bool {
    forall|c: ClientId| #[trigger]
        s.accounts.contains_key(c) ==> value(s.accounts[c].held) == disputed_total(s.records, c)
}

/// Whether applying `t` to `s` moves the held funds without rounding: the
/// balances a dispute, resolve or chargeback touches stay within what four
/// fractional digits and a 96-bit mantissa can hold.
pub open spec fn step_exact(s: EngineState, t: Transaction) -> bool {
    referable(s, t.client, t.tx) ==> {
        let x = value(s.records[t.tx].amount);
        let a = s.accounts[t.client];
        &&& t.kind == TransactionType::Dispute ==> fits(value(a.available) - x) && fits(
            value(a.held) + x,
        )
        &&& t.kind == TransactionType::Resolve ==> fits(value(a.available) + x) && fits(
            value(a.held) - x,
        )
        &&& t.kind == TransactionType::Chargeback ==> fits(value(a.held) - x)
    }
}

/// Changing what one record holds under dispute changes the sum by as much.
proof fn lemma_disputed_below_change(
    r1: Map<TxId, RecordState>,
    r2: Map<TxId, RecordState>,
    c: ClientId,
    tx: TxId,
    delta: int,
    n: nat,
)
    requires
        n <= 0x1_0000_0000nat,
        forall|t: TxId| t != tx ==> disputed_amount(r2, c, t) == disputed_amount(r1, c, t),
        disputed_amount(r2, c, tx) == disputed_amount(r1, c, tx) + delta,
    ensures
        disputed_below(r2, c, n) == disputed_below(r1, c, n) + if (tx as nat) < n {
            delta
        } else {
            0
        },
    decreases n,
{
    if n > 0 {
        lemma_disputed_below_change(r1, r2, c, tx, delta, (n - 1) as nat);
        let t = (n - 1) as TxId;
        assert(t as nat == n - 1);
    }
}

/// A client without a recorded deposit has nothing under dispute.
proof fn lemma_disputed_below_none(records: Map<TxId, RecordState>, c: ClientId, n: nat)
    requires
        forall|t: TxId| records.contains_key(t) ==> records[t].client != c,
    ensures
        disputed_below(records, c, n) == 0,
    decreases n,
{
    if n > 0 {
        lemma_disputed_below_none(records, c, (n - 1) as nat);
    }
}

/// One step of the held-funds law: applying a transaction keeps every
/// account's held funds equal to its deposits under dispute, when the step
/// moves them without rounding.
pub proof fn lemma_held_step(s: EngineState, t: Transaction, s2: EngineState)
    requires
        consistent(s),
        held_matches(s),
        applies(s, t, s2),
        step_exact(s, t),
    ensures
        held_matches(s2),
{
    let c0 = t.client;
    let tx = t.tx;
    assert forall|c: ClientId| #[trigger] s2.accounts.contains_key(c) implies value(
        s2.accounts[c].held,
    ) == disputed_total(s2.records, c) by {
        if t.kind == TransactionType::Deposit || t.kind == TransactionType::Withdrawal {
            // Records only gain an undisputed deposit.
            assert forall|u: TxId| u != tx implies disputed_amount(s2.records, c, u)
                == disputed_amount(s.records, c, u) by {}
            assert(disputed_amount(s2.records, c, tx) == disputed_amount(s.records, c, tx));
            lemma_disputed_below_change(s.records, s2.records, c, tx, 0, 0x1_0000_0000nat);
            if c == c0 && !s.accounts.contains_key(c) {
                lemma_disputed_below_none(s.records, c, 0x1_0000_0000nat);
                assert(value(account_of(s, c).held) == 0);
            }
        } else if referable(s, c0, tx) && s2 != s {
            let x = value(s.records[tx].amount);
            let delta = if c == c0 {
                if t.kind == TransactionType::Dispute {
                    x
                } else {
                    -x
                }
            } else {
                0
            };
            assert forall|u: TxId| u != tx implies disputed_amount(s2.records, c, u)
                == disputed_amount(s.records, c, u) by {}
            assert(disputed_amount(s2.records, c, tx) == disputed_amount(s.records, c, tx) + delta);
            lemma_disputed_below_change(s.records, s2.records, c, tx, delta, 0x1_0000_0000nat);
        }
    }
}

/// Held funds are exactly the deposits under dispute: in every state that
/// `Engine::apply` reaches from a new engine, each account holds the sum of
/// the amounts of its client's deposits that are under dispute, as long as
/// no dispute, resolve or chargeback along the way needed its sums rounded.
pub proof fn law_held_is_disputed_deposits(states: Seq<EngineState>, ts: Seq<Transaction>)
    requires
        states.len() == ts.len() + 1,
        states[0].accounts == Map::<ClientId, AccountState>::empty(),
        states[0].records == Map::<TxId, RecordState>::empty(),
        forall|i: int|
            0 <= i < ts.len() ==> applies(#[trigger] states[i], ts[i], states[i + 1]) && step_exact(
                states[i],
                ts[i],
            ),
    ensures
        held_matches(states.last()),
    decreases ts.len(),
{
    if ts.len() == 0 {
        assert(held_matches(states[0]));
    } else {
        let n = ts.len() - 1;
        law_held_is_disputed_deposits(states.take(n + 1), ts.take(n));
        assert(states.take(n + 1).last() == states[n]);
        assert(applies(states[n], ts[n], states[n + 1]));
        if n == 0 {
            assert(consistent(states[0]));
        } else {
            assert(applies(states[n - 1], ts[n - 1], states[n]));
        }
        lemma_held_step(states[n], ts[n], states[n + 1]);
    }
}

} // verus!
