//! The state of a client's account and the operations that change it.
//!
//! The account owns its balances and is the only place where they move. Every
//! operation is checked: it either applies in full and answers `true`, or is
//! refused, answers `false` and leaves the account exactly as it was.
use vstd::prelude::*;

use crate::amount::{
    at_least, beyond_range, checked_add, decimal_checked_add, exact_sum, lemma_pow10_positive, max_magnitude,
    max_scale, negated, pow10, valid_model, value, Amount, AmountModel, MANTISSA_LIMIT, MAX_SCALE,
};
use crate::transaction::ClientId;

verus! {

/// What an account holds, with the balances given by their parts.
pub struct AccountState {
    pub client: ClientId,
    pub available: AmountModel,
    pub held: AmountModel,
    pub locked: bool,
}

/// The decimal zero that an account opens with.
pub open spec fn zero_model() -> AmountModel {
    (false, 0u128, 0u32)
}

/// Whether `available + held` can be computed: either the exact sum is within
/// the decimal range, or the decimal addition is known to succeed.
pub open spec fn total_representable(available: AmountModel, held: AmountModel) -> bool {
    ||| decimal_checked_add(available, held) is Some
    ||| (-max_magnitude() <= value(available) + value(held) <= max_magnitude())
}

/// The account after adding `da` to the available funds and `dh` to the held
/// funds, or `None` when one of the two sums or the resulting total overflows.
pub open spec fn shifted(s: AccountState, da: AmountModel, dh: AmountModel) -> Option<AccountState> {
    match (decimal_checked_add(s.available, da), decimal_checked_add(s.held, dh)) {
        (Some(a), Some(h)) => if decimal_checked_add(a, h) is Some {
            Some(AccountState { client: s.client, available: a, held: h, locked: s.locked })
        } else {
            None
        },
        _ => None,
    }
}

/// Whether the balances of `after` have no more fractional digits than those of
/// `before` or `scale`.
pub open spec fn scales_within(before: AccountState, after: AccountState, scale: u32) -> bool {
    &&& after.available.2 <= max_scale(before.available.2, scale)
    &&& after.held.2 <= max_scale(before.held.2, scale)
}

/// The account `s` with its lock set.
pub open spec fn frozen(s: AccountState) -> AccountState {
    AccountState { client: s.client, available: s.available, held: s.held, locked: true }
}

/// Whether `x` (in units of 10^-28) lies within the range of a decimal.
pub open spec fn within_range(x: int) -> bool {
    -max_magnitude() <= x <= max_magnitude()
}

/// Adding zero to a decimal never needs rounding.
pub proof fn lemma_exact_sum_zero(m: AmountModel)
    requires
        valid_model(m),
    ensures
        exact_sum(m, zero_model()),
        value(zero_model()) == 0,
{
    let p = pow10((MAX_SCALE - m.2) as nat);
    lemma_pow10_positive((MAX_SCALE - m.2) as nat);
    assert(m.1 * p < MANTISSA_LIMIT * p) by (nonlinear_arith)
        requires
            p >= 1,
            m.1 < MANTISSA_LIMIT,
    ;
    assert(0 * pow10(MAX_SCALE as nat) == 0);
}

/// The state of a single client's asset account.
///
/// The balances are private so that they can only change through the operations
/// below, each of which keeps `total = available + held` representable.
#[derive(Debug, Clone, Copy, PartialEq, Eq)]
pub struct Account {
    client: ClientId,
    available: Amount,
    held: Amount,
    locked: bool,
}

impl View for Account {
    type V = AccountState;

    closed spec fn view(&self) -> AccountState {
        AccountState {
            client: self.client,
            available: self.available@,
            held: self.held@,
            locked: self.locked,
        }
    }
}

impl Account {
    /// The total of every account can be computed.
    #[verifier::type_invariant]
    pub open spec fn total_fits(self) -> bool {
        total_representable(self@.available, self@.held)
    }

    /// Opens an empty account for `client`.
    pub fn new(client: ClientId) -> (r: Account)
        ensures
            r@.client == client,
            r@.available == zero_model(),
            r@.held == zero_model(),
            !r@.locked,
    {
        let r = Account { client, available: Amount::zero(), held: Amount::zero(), locked: false };
        assert(value(zero_model()) == 0);
        r
    }

    /// The account's owner.
    pub fn client(&self) -> (r: ClientId)
        ensures
            r == self@.client,
    {
        self.client
    }

    /// Funds available for trading, staking, withdrawal, etc.
    pub fn available(&self) -> (r: Amount)
        ensures
            r@ == self@.available,
    {
        self.available
    }

    /// Funds held pending the outcome of a dispute.
    pub fn held(&self) -> (r: Amount)
        ensures
            r@ == self@.held,
    {
        self.held
    }

    /// Funds that are either available or held.
    pub fn total(&self) -> (r: Amount)
        ensures
            decimal_checked_add(self@.available, self@.held) == Some(r@),
            r@.2 <= max_scale(self@.available.2, self@.held.2),
            exact_sum(self@.available, self@.held) ==> value(r@) == value(self@.available) + value(
                self@.held,
            ),
    {
        proof {
            use_type_invariant(self);
        }
        let sum = checked_add(self.available, self.held);
        match sum {
            Some(t) => t,
            None => {
                proof {
                    use_type_invariant(&self.available);
                    use_type_invariant(&self.held);
                }
                assert(false);
                self.available
            },
        }
    }

    /// Whether the account is frozen, which happens on a chargeback.
    pub fn is_locked(&self) -> (r: bool)
        ensures
            r == self@.locked,
    {
        self.locked
    }

    /// Credits `amount` to the available funds.
    pub fn deposit(&mut self, amount: Amount) -> (r: bool)
        ensures
            r ==> scales_within(old(self)@, final(self)@, amount@.2),
            r == shifted(old(self)@, amount@, zero_model()) is Some,
            r ==> final(self)@ == shifted(old(self)@, amount@, zero_model())->0,
            !r ==> final(self)@ == old(self)@,
            r && exact_sum(old(self)@.available, amount@) ==> value(final(self)@.available) == value(
                old(self)@.available,
            ) + value(amount@),
            r ==> value(final(self)@.held) == value(old(self)@.held),
            exact_sum(old(self)@.available, amount@) && within_range(
                value(old(self)@.available) + value(amount@) + value(old(self)@.held),
            ) ==> r,
            beyond_range(value(old(self)@.available) + value(amount@)) ==> !r,
            exact_sum(old(self)@.available, amount@) && beyond_range(
                value(old(self)@.available) + value(amount@) + value(old(self)@.held),
            ) ==> !r,
    {
        proof {
            use_type_invariant(&self.held);
            lemma_exact_sum_zero(self.held@);
        }
        self.shift(amount, Amount::zero())
    }

    /// Debits `amount` from the available funds, unless they do not cover it.
    pub fn withdraw(&mut self, amount: Amount) -> (r: bool)
        ensures
            r ==> scales_within(old(self)@, final(self)@, amount@.2),
            r == (value(old(self)@.available) >= value(amount@) && shifted(
                old(self)@,
                negated(amount@),
                zero_model(),
            ) is Some),
            r ==> final(self)@ == shifted(old(self)@, negated(amount@), zero_model())->0,
            !r ==> final(self)@ == old(self)@,
            r && exact_sum(old(self)@.available, negated(amount@)) ==> value(
                final(self)@.available,
            ) == value(old(self)@.available) - value(amount@),
            r ==> value(final(self)@.held) == value(old(self)@.held),
            value(old(self)@.available) >= value(amount@) && exact_sum(
                old(self)@.available,
                negated(amount@),
            ) && within_range(
                value(old(self)@.available) - value(amount@) + value(old(self)@.held),
            ) ==> r,
            exact_sum(old(self)@.available, negated(amount@)) && beyond_range(
                value(old(self)@.available) - value(amount@) + value(old(self)@.held),
            ) ==> !r,
    {
        proof {
            use_type_invariant(&self.held);
            lemma_exact_sum_zero(self.held@);
        }
        at_least(self.available, amount) && self.shift(amount.neg(), Amount::zero())
    }

    /// Moves `amount` from the available funds to the held funds.
    pub fn hold(&mut self, amount: Amount) -> (r: bool)
        ensures
            r ==> scales_within(old(self)@, final(self)@, amount@.2),
            r == shifted(old(self)@, negated(amount@), amount@) is Some,
            r ==> final(self)@ == shifted(old(self)@, negated(amount@), amount@)->0,
            !r ==> final(self)@ == old(self)@,
            r && exact_sum(old(self)@.available, negated(amount@)) ==> value(
                final(self)@.available,
            ) == value(old(self)@.available) - value(amount@),
            r && exact_sum(old(self)@.held, amount@) ==> value(final(self)@.held) == value(
                old(self)@.held,
            ) + value(amount@),
            exact_sum(old(self)@.available, negated(amount@)) && exact_sum(
                old(self)@.held,
                amount@,
            ) && within_range(value(old(self)@.available) + value(old(self)@.held)) ==> r,
            beyond_range(value(old(self)@.available) - value(amount@)) || beyond_range(
                value(old(self)@.held) + value(amount@),
            ) ==> !r,
    {
        self.shift(amount.neg(), amount)
    }

    /// Moves `amount` from the held funds back to the available funds.
    pub fn release(&mut self, amount: Amount) -> (r: bool)
        ensures
            r ==> scales_within(old(self)@, final(self)@, amount@.2),
            r == shifted(old(self)@, amount@, negated(amount@)) is Some,
            r ==> final(self)@ == shifted(old(self)@, amount@, negated(amount@))->0,
            !r ==> final(self)@ == old(self)@,
            r && exact_sum(old(self)@.available, amount@) ==> value(final(self)@.available) == value(
                old(self)@.available,
            ) + value(amount@),
            r && exact_sum(old(self)@.held, negated(amount@)) ==> value(final(self)@.held) == value(
                old(self)@.held,
            ) - value(amount@),
            exact_sum(old(self)@.available, amount@) && exact_sum(
                old(self)@.held,
                negated(amount@),
            ) && within_range(value(old(self)@.available) + value(old(self)@.held)) ==> r,
            beyond_range(value(old(self)@.available) + value(amount@)) || beyond_range(
                value(old(self)@.held) - value(amount@),
            ) ==> !r,
    {
        self.shift(amount, amount.neg())
    }

    /// Withdraws `amount` from the held funds and freezes the account.
    pub fn reverse(&mut self, amount: Amount) -> (r: bool)
        ensures
            r ==> scales_within(old(self)@, final(self)@, amount@.2),
            r == shifted(old(self)@, zero_model(), negated(amount@)) is Some,
            r ==> final(self)@ == frozen(shifted(old(self)@, zero_model(), negated(amount@))->0),
            !r ==> final(self)@ == old(self)@,
            r ==> value(final(self)@.available) == value(old(self)@.available),
            r && exact_sum(old(self)@.held, negated(amount@)) ==> value(final(self)@.held) == value(
                old(self)@.held,
            ) - value(amount@),
            exact_sum(old(self)@.held, negated(amount@)) && within_range(
                value(old(self)@.available) + value(old(self)@.held) - value(amount@),
            ) ==> r,
            beyond_range(value(old(self)@.held) - value(amount@)) ==> !r,
            exact_sum(old(self)@.held, negated(amount@)) && beyond_range(
                value(old(self)@.available) + value(old(self)@.held) - value(amount@),
            ) ==> !r,
    {
        proof {
            use_type_invariant(&self.available);
            lemma_exact_sum_zero(self.available@);
        }
        let reversed = self.shift(Amount::zero(), amount.neg());
        if reversed {
            *self = Account {
                client: self.client,
                available: self.available,
                held: self.held,
                locked: true,
            };
        }
        reversed
    }

    /// Adds the two deltas to the respective balances.
    ///
    /// The account is left untouched, and `false` returned, if any of the
    /// resulting amounts would overflow.
    fn shift(&mut self, available: Amount, held: Amount) -> (r: bool)
        ensures
            r == shifted(old(self)@, available@, held@) is Some,
            r ==> final(self)@ == shifted(old(self)@, available@, held@)->0,
            !r ==> final(self)@ == old(self)@,
            exact_sum(old(self)@.available, available@) && r ==> value(final(self)@.available)
                == value(old(self)@.available) + value(available@),
            exact_sum(old(self)@.held, held@) && r ==> value(final(self)@.held) == value(
                old(self)@.held,
            ) + value(held@),
            r ==> final(self)@.available.2 <= max_scale(old(self)@.available.2, available@.2),
            r ==> final(self)@.held.2 <= max_scale(old(self)@.held.2, held@.2),
            beyond_range(value(old(self)@.available) + value(available@)) || beyond_range(
                value(old(self)@.held) + value(held@),
            ) ==> !r,
            exact_sum(old(self)@.available, available@) && exact_sum(old(self)@.held, held@)
                && beyond_range(
                value(old(self)@.available) + value(available@) + value(old(self)@.held) + value(
                    held@,
                ),
            ) ==> !r,
            exact_sum(old(self)@.available, available@) && exact_sum(old(self)@.held, held@)
                && within_range(
                value(old(self)@.available) + value(available@) + value(old(self)@.held) + value(
                    held@,
                ),
            ) ==> r,
    {
        let a = checked_add(self.available, available);
        let h = checked_add(self.held, held);
        match (a, h) {
            (Some(a), Some(h)) => {
                let t = checked_add(a, h);
                if t.is_none() {
                    return false;
                }
                *self = Account { client: self.client, available: a, held: h, locked: self.locked };
                true
            },
            _ => false,
        }
    }
}

} // verus!
