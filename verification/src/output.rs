//! The account report: one row per client, every amount shown with the same
//! four decimal places.
use vstd::prelude::*;

use crate::account::{Account, AccountState};
use crate::amount::{
    decimal_checked_add, digit_char, digits, display_text, exact_sum, lemma_pow10_add, lemma_pow10_positive,
    pow10, to_text, valid_model, value, zero_padded, Amount, AmountModel, MAX_SCALE,
};
use crate::transaction::{ClientId, SCALE};

verus! {

/// Whether `k` is where the whole part of `t` ends: at its first '.', or at its
/// end when it has none.
pub open spec fn whole_end(t: Seq<char>, k: int) -> bool {
    &&& 0 <= k <= t.len()
    &&& k < t.len() ==> t[k] == '.'
    &&& forall|j: int| 0 <= j < k ==> t[j] != '.'
}

/// Where the whole part of `t` ends.
pub open spec fn dot_position(t: Seq<char>) -> int {
    choose|k: int| whole_end(t, k)
}

/// The first `SCALE` digits of `fraction`, padded with zeros.
pub open spec fn padded_fraction(fraction: Seq<char>) -> Seq<char> {
    Seq::new(
        SCALE as nat,
        |i: int|
            if i < fraction.len() {
                fraction[i]
            } else {
                '0'
            },
    )
}

/// The digits after the '.' of `t`, if it has one.
pub open spec fn fraction_of(t: Seq<char>) -> Seq<char> {
    let k = dot_position(t);
    if k < t.len() {
        t.skip(k + 1)
    } else {
        Seq::empty()
    }
}

/// `t` written with exactly `SCALE` fractional digits: its whole part, a '.',
/// and its fraction cut or padded with zeros to `SCALE` digits.
pub open spec fn fixed_point_text(t: Seq<char>) -> Seq<char> {
    t.take(dot_position(t)) + seq!['.'] + padded_fraction(fraction_of(t))
}

/// The amount a balance is shown as: itself, or a zero without a sign.
pub open spec fn shown(m: AmountModel) -> AmountModel {
    if m.1 == 0 {
        (false, 0u128, 0u32)
    } else {
        m
    }
}

/// The text a balance is reported with.
pub open spec fn amount_text(m: AmountModel) -> Seq<char> {
    fixed_point_text(display_text(shown(m)))
}

/// Every text has exactly one place where its whole part ends.
pub proof fn lemma_dot_position(t: Seq<char>)
    ensures
        whole_end(t, dot_position(t)),
        forall|k: int| whole_end(t, k) ==> k == dot_position(t),
{
    let first = choose|k: int| 0 <= k < t.len() && t[k] == '.' && forall|j: int| 0 <= j < k ==> t[j] != '.';
    if exists|i: int| 0 <= i < t.len() && t[i] == '.' {
        lemma_first_dot_exists(t, t.len() as int);
        assert(whole_end(t, first));
    } else {
        assert(whole_end(t, t.len() as int));
    }
    let d = dot_position(t);
    assert forall|k: int| whole_end(t, k) implies k == d by {
        if k < d {
            assert(t[k] == '.');
        } else if d < k {
            assert(t[d] == '.');
        }
    }
}

/// A text that has a '.' before `n` has a first one.
proof fn lemma_first_dot_exists(t: Seq<char>, n: int)
    requires
        0 <= n <= t.len(),
        exists|i: int| 0 <= i < n && t[i] == '.',
    ensures
        exists|k: int| 0 <= k < t.len() && t[k] == '.' && forall|j: int| 0 <= j < k ==> t[j] != '.',
    decreases n,
{
    if exists|i: int| 0 <= i < n - 1 && t[i] == '.' {
        lemma_first_dot_exists(t, n - 1);
    } else {
        let k = n - 1;
        assert(t[k] == '.');
        assert(forall|j: int| 0 <= j < k ==> t[j] != '.');
    }
}

/// Writes `text`, a decimal as its `Display` renders it, with exactly `SCALE`
/// fractional digits: the fraction is padded with zeros, or cut (never
/// rounded) when it is longer.
pub fn fixed_point(text: &str) -> (r: String)
    ensures
        r@ == fixed_point_text(text@),
{
    let n = text.unicode_len();
    let mut k: usize = 0;
    while k < n && text.get_char(k) != '.'
        invariant
            k <= n,
            n == text@.len(),
            forall|j: int| 0 <= j < k ==> text@[j] != '.',
        decreases n - k,
    {
        k = k + 1;
    }
    proof {
        lemma_dot_position(text@);
        assert(whole_end(text@, k as int));
    }
    let mut out = text.substring_char(0, k).to_owned();
    proof {
        reveal_strlit(".");
    }
    out.append(".");
    let ghost fraction = fraction_of(text@);
    let mut i: usize = 0;
    while i < SCALE as usize
        invariant
            k <= n,
            n == text@.len(),
            k == dot_position(text@),
            fraction == fraction_of(text@),
            i <= SCALE,
            out@ == text@.take(k as int) + seq!['.'] + padded_fraction(fraction).take(i as int),
        decreases SCALE - i,
    {
        let ghost before = out@;
        if k < n && i < n - k - 1 {
            let p = k + 1 + i;
            let digit = text.substring_char(p, p + 1);
            assert(digit@ =~= seq![text@[p as int]]);
            assert(fraction[i as int] == text@[p as int]);
            out.append(digit);
        } else {
            proof {
                reveal_strlit("0");
            }
            assert("0"@ =~= seq!['0']);
            out.append("0");
        }
        assert(padded_fraction(fraction).take(i + 1) =~= padded_fraction(fraction).take(
            i as int,
        ).push(padded_fraction(fraction)[i as int]));
        i = i + 1;
    }
    assert(padded_fraction(fraction).take(SCALE as int) =~= padded_fraction(fraction));
    out
}

/// Renders an amount with the precision the report requires.
///
/// A balance that lands on exactly zero is reported as a positive zero: the
/// decimal keeps a sign of its own, so subtracting a zero amount can leave a
/// negative zero behind, and `-0.0000` is not a balance a reader expects.
pub fn format_amount(value: Amount) -> (r: String)
    ensures
        r@ == amount_text(value@),
{
    let value = if value.is_zero() {
        Amount::zero()
    } else {
        value
    };
    let text = to_text(value);
    fixed_point(text.as_str())
}

/// One row of the account report.
///
/// A separate type from [`Account`], because the report is a view of an account
/// rather than the account itself: it spells out the total and renders the
/// amounts for display.
#[derive(Debug)]
pub struct AccountReport {
    pub client: ClientId,
    pub available: String,
    pub held: String,
    pub total: String,
    pub locked: bool,
}

impl AccountReport {
    /// The report row of `account`.
    pub fn from(account: &Account) -> (r: AccountReport)
        ensures
            reports(r, account@),
    {
        let available = account.available();
        let held = account.held();
        let total = account.total();
        proof {
            use_type_invariant(&available);
            use_type_invariant(&held);
            use_type_invariant(&total);
            if available@.2 <= SCALE && held@.2 <= SCALE {
                law_report_text_is_exact(available@);
                law_report_text_is_exact(held@);
                law_report_text_is_exact(total@);
                let p = pow10((MAX_SCALE - SCALE) as nat);
                lemma_pow10_positive((MAX_SCALE - SCALE) as nat);
                if exact_sum(available@, held@) {
                    assert(signed_magnitude(total@) == signed_magnitude(available@)
                        + signed_magnitude(held@)) by (nonlinear_arith)
                        requires
                            value(total@) == value(available@) + value(held@),
                            value(total@) == signed_magnitude(total@) * p,
                            value(available@) == signed_magnitude(available@) * p,
                            value(held@) == signed_magnitude(held@) * p,
                            p >= 1,
                    ;
                }
            }
        }
        AccountReport {
            client: account.client(),
            available: format_amount(available),
            held: format_amount(held),
            total: format_amount(total),
            locked: account.is_locked(),
        }
    }
}

/// The names of the report's columns, in the order its rows give them.
pub open spec fn column_names() -> Seq<Seq<char>> {
    seq!["client"@, "available"@, "held"@, "total"@, "locked"@]
}

/// The header of the report: the names of its columns, in order.
pub fn report_columns() -> (r: Vec<String>)
    ensures
        r@.map_values(|name: String| name@) == column_names(),
{
    let mut columns: Vec<String> = Vec::new();
    columns.push("client".to_owned());
    columns.push("available".to_owned());
    columns.push("held".to_owned());
    columns.push("total".to_owned());
    columns.push("locked".to_owned());
    assert(columns@.map_values(|name: String| name@) =~= column_names());
    columns
}

/// Whether `row` is the report row of the account `a`.
pub open spec fn reports(row: AccountReport, a: AccountState) -> bool {
    &&& row.client == a.client
    &&& row.available@ == amount_text(a.available)
    &&& row.held@ == amount_text(a.held)
    &&& row.total@ == amount_text(decimal_checked_add(a.available, a.held)->0)
    &&& row.locked == a.locked
    &&& a.available.2 <= SCALE && a.held.2 <= SCALE ==> reported_exactly(row, a)
}

/// A signed amount of units of 10^-SCALE: the magnitude, negated when the sign
/// bit is set.
pub open spec fn signed_magnitude(m: AmountModel) -> int {
    if m.0 {
        -(scaled_magnitude(m) as int)
    } else {
        scaled_magnitude(m) as int
    }
}

/// Whether the texts of `row` write the balances of `a` and their total exactly
/// with four fractional digits, and the reported total is the sum of the
/// reported available and held funds whenever the decimal sum is exact.
pub open spec fn reported_exactly(row: AccountReport, a: AccountState) -> bool {
    let t = decimal_checked_add(a.available, a.held)->0;
    &&& t.2 <= SCALE
    &&& row.available@ == exact_text(a.available.0, scaled_magnitude(a.available))
    &&& row.held@ == exact_text(a.held.0, scaled_magnitude(a.held))
    &&& row.total@ == exact_text(t.0, scaled_magnitude(t))
    &&& exact_sum(a.available, a.held) ==> signed_magnitude(t) == signed_magnitude(a.available)
        + signed_magnitude(a.held)
}

/// The report rows of `accounts`, one per account, in the same order.
pub fn report_rows(accounts: &Vec<Account>) -> (r: Vec<AccountReport>)
    ensures
        r.len() == accounts.len(),
        forall|i: int| 0 <= i < r.len() ==> reports(#[trigger] r[i], accounts[i]@),
{
    let mut rows: Vec<AccountReport> = Vec::new();
    for i in 0..accounts.len()
        invariant
            rows.len() == i,
            forall|j: int| 0 <= j < i ==> reports(#[trigger] rows[j], accounts[j]@),
    {
        rows.push(AccountReport::from(&accounts[i]));
    }
    rows
}

/// A '-' when `negative`, nothing otherwise.
pub open spec fn sign_text(negative: bool) -> Seq<char> {
    if negative {
        seq!['-']
    } else {
        Seq::empty()
    }
}

/// The digits of a whole number, or "0" for zero.
pub open spec fn whole_text(w: nat) -> Seq<char> {
    if w == 0 {
        seq!['0']
    } else {
        digits(w)
    }
}

/// How `Display` writes a decimal, read as its parts: the sign, the whole part
/// `mantissa / 10^scale`, and (for a positive scale) a '.' and the remainder
/// written with exactly `scale` digits.
proof fn lemma_display_parts(m: AmountModel)
    requires
        valid_model(m),
    ensures
        m.2 == 0 ==> display_text(m) == sign_text(m.0) + whole_text(m.1 as nat),
        m.2 > 0 ==> display_text(m) == sign_text(m.0) + whole_text(
            (m.1 as nat / pow10(m.2 as nat)) as nat,
        ) + seq!['.'] + zero_padded(digits((m.1 as nat % pow10(m.2 as nat)) as nat), m.2 as nat),
        zero_padded(digits((m.1 as nat % pow10(m.2 as nat)) as nat), m.2 as nat).len() == m.2,
{
    let s = m.2 as nat;
    let p = pow10(s);
    lemma_pow10_positive(s);
    let q = (m.1 as nat / p) as nat;
    let r = (m.1 as nat % p) as nat;
    vstd::arithmetic::div_mod::lemma_fundamental_div_mod(m.1 as int, p as int);
    assert(m.1 == q * p + r) by (nonlinear_arith)
        requires
            m.1 == p * q + r,
    ;
    lemma_digits_len(r, s);
    let fr = zero_padded(digits(r), s);
    assert(fr.len() == s);
    let d = zero_padded(digits(m.1 as nat), s);
    if q > 0 {
        lemma_digits_split(q, r, s);
        assert(digits(q).len() >= 1) by {
            lemma_digits_len_pos(q);
        }
        assert(d == digits(q) + fr);
        assert(d.take(d.len() - s) =~= digits(q));
        assert(d.skip(d.len() - s) =~= fr);
    } else {
        assert(q * p == 0) by (nonlinear_arith)
            requires
                q == 0,
        ;
        assert(m.1 == r);
        assert(d == fr);
        assert(d.take(d.len() - s) =~= Seq::<char>::empty());
        assert(d.skip(d.len() - s) =~= fr);
    }
    if s == 0 {
        assert(p == 1);
        assert(q * p == q) by (nonlinear_arith)
            requires
                p == 1,
        ;
        assert(q == m.1);
        if m.1 == 0 {
            assert(digits(0) =~= Seq::<char>::empty());
        }
        assert(d =~= digits(m.1 as nat));
    }
}

/// `n` zeros.
pub open spec fn zeros(n: nat) -> Seq<char> {
    Seq::new(n, |i: int| '0')
}

/// Writing a sign and a whole part, and then either nothing or a '.' and at
/// most `SCALE` more characters, with exactly `SCALE` fractional digits pads
/// the fraction with zeros.
proof fn lemma_fixed_of_parts(negative: bool, w: nat, f: Seq<char>)
    requires
        f.len() <= SCALE,
    ensures
        fixed_point_text(sign_text(negative) + whole_text(w)) == sign_text(negative) + whole_text(
            w,
        ) + seq!['.'] + zeros(SCALE as nat),
        fixed_point_text(sign_text(negative) + whole_text(w) + seq!['.'] + f) == sign_text(negative)
            + whole_text(w) + seq!['.'] + f + zeros((SCALE - f.len()) as nat),
{
    let head = sign_text(negative) + whole_text(w);
    lemma_digits_plain(w);
    assert forall|j: int| 0 <= j < head.len() implies head[j] != '.' by {
        if negative && j == 0 {
        } else {
            let i = j - sign_text(negative).len();
            if w == 0 {
            } else {
                assert(head[j] == digits(w)[i]);
            }
        }
    }
    let t1 = head;
    lemma_dot_position(t1);
    assert(whole_end(t1, t1.len() as int));
    assert(fraction_of(t1) =~= Seq::<char>::empty());
    assert(padded_fraction(Seq::<char>::empty()) =~= zeros(SCALE as nat));
    assert(t1.take(t1.len() as int) =~= t1);
    let t2 = head + seq!['.'] + f;
    lemma_dot_position(t2);
    assert(whole_end(t2, head.len() as int));
    assert(t2.take(head.len() as int) =~= head);
    assert(fraction_of(t2) =~= f);
    assert(padded_fraction(f) =~= f + zeros((SCALE - f.len()) as nat));
}

/// The last `s` digits of a number, followed by `SCALE - s` zeros, are the
/// number scaled to `SCALE` digits, written with exactly `SCALE` of them.
proof fn lemma_fraction_widened(r: nat, s: nat)
    requires
        s <= SCALE,
        r < pow10(s),
    ensures
        zero_padded(digits(r), s) + zeros((SCALE - s) as nat) == zero_padded(
            digits(r * pow10((SCALE - s) as nat)),
            SCALE as nat,
        ),
{
    let k = (SCALE - s) as nat;
    lemma_pow10_positive(k);
    lemma_digits_len(r, s);
    if r > 0 {
        lemma_digits_split(r, 0, k);
        assert(r * pow10(k) + 0 == r * pow10(k));
        assert(zero_padded(digits(0), k) =~= zeros(k));
        assert(digits(r * pow10(k)) == digits(r) + zeros(k));
        assert(zero_padded(digits(r), s) + zeros(k) =~= zero_padded(
            digits(r) + zeros(k),
            SCALE as nat,
        ));
    } else {
        assert(r * pow10(k) == 0);
        assert(zero_padded(digits(r), s) + zeros(k) =~= zero_padded(
            digits(r * pow10(k)),
            SCALE as nat,
        ));
    }
}

/// The magnitude of a decimal with at most `SCALE` fractional digits, counted
/// in units of 10^-SCALE.
pub open spec fn scaled_magnitude(m: AmountModel) -> nat
    recommends
        m.2 <= SCALE,
{
    m.1 as nat * pow10((SCALE - m.2) as nat)
}

/// A magnitude of `n` units of 10^-SCALE written with exactly `SCALE`
/// fractional digits: a '-' for a negative non-zero amount, the whole digits
/// (or "0"), a '.', and the `SCALE` digits of the fraction.
pub open spec fn exact_text(negative: bool, n: nat) -> Seq<char> {
    sign_text(negative && n != 0) + whole_text(n / pow10(SCALE as nat)) + seq!['.'] + zero_padded(
        digits(n % pow10(SCALE as nat)),
        SCALE as nat,
    )
}

/// A balance with at most four fractional digits is reported exactly: its text
/// is its sign, the whole part and the four fractional digits of its value, so
/// nothing is rounded or lost on the way to the report. (Every balance the
/// engine keeps has at most four fractional digits, as its invariant states.)
pub proof fn law_report_text_is_exact(m: AmountModel)
    requires
        valid_model(m),
        m.2 <= SCALE,
    ensures
        amount_text(m) == exact_text(m.0, scaled_magnitude(m)),
        value(m) == signed_magnitude(m) * pow10((MAX_SCALE - SCALE) as nat),
        amount_text(m).len() > 0,
        amount_text(m)[0] == '-' <==> value(m) < 0,
{
    let s = m.2 as nat;
    let k = (SCALE - s) as nat;
    let big = pow10(SCALE as nat);
    let n = scaled_magnitude(m);
    lemma_pow10_positive(k);
    lemma_pow10_positive(s);
    lemma_pow10_positive(SCALE as nat);
    lemma_pow10_add(k, (MAX_SCALE - SCALE) as nat);
    assert(m.1 * pow10((MAX_SCALE - m.2) as nat) == n * pow10((MAX_SCALE - SCALE) as nat))
        by (nonlinear_arith)
        requires
            pow10((MAX_SCALE - m.2) as nat) == pow10(k) * pow10((MAX_SCALE - SCALE) as nat),
            n == m.1 * pow10(k),
    ;
    assert(value(m) == signed_magnitude(m) * pow10((MAX_SCALE - SCALE) as nat)) by {
        let p = pow10((MAX_SCALE - SCALE) as nat);
        if m.0 {
            assert(-(n as int) * p == -(n * p)) by (nonlinear_arith);
        }
    }
    lemma_pow10_add(s, k);
    assert(big == pow10(s) * pow10(k));
    if m.1 == 0 {
        assert(n == 0) by (nonlinear_arith)
            requires
                n == m.1 * pow10(k),
                m.1 == 0,
        ;
        let z: AmountModel = (false, 0u128, 0u32);
        lemma_display_parts(z);
        lemma_fixed_of_parts(false, 0, Seq::empty());
        assert(digits(0) =~= Seq::<char>::empty());
        assert(zero_padded(digits(0), SCALE as nat) =~= zeros(SCALE as nat));
        assert(shown(m) == z);
        assert(display_text(z) == sign_text(false) + whole_text(0));
        assert(n / big == 0 && n % big == 0);
        assert(sign_text(m.0 && n != 0) == sign_text(false));
        assert(amount_text(m) == sign_text(false) + whole_text(0) + seq!['.'] + zeros(SCALE as nat));
    } else {
        let q = (m.1 as nat / pow10(s)) as nat;
        let r = (m.1 as nat % pow10(s)) as nat;
        vstd::arithmetic::div_mod::lemma_fundamental_div_mod(m.1 as int, pow10(s) as int);
        assert(r < pow10(s));
        let f = r * pow10(k);
        assert(n == q * big + f) by (nonlinear_arith)
            requires
                m.1 == pow10(s) * q + r,
                n == m.1 * pow10(k),
                big == pow10(s) * pow10(k),
                f == r * pow10(k),
        ;
        assert(f < big) by (nonlinear_arith)
            requires
                r < pow10(s),
                f == r * pow10(k),
                big == pow10(s) * pow10(k),
                pow10(k) >= 1,
        ;
        vstd::arithmetic::div_mod::lemma_fundamental_div_mod_converse(
            n as int,
            big as int,
            q as int,
            f as int,
        );
        assert(n / big == q);
        assert(n % big == f);
        assert(n != 0) by (nonlinear_arith)
            requires
                n == m.1 * pow10(k),
                m.1 != 0,
                pow10(k) >= 1,
        ;
        lemma_display_parts(m);
        lemma_fraction_widened(r, s);
        if s == 0 {
            assert(pow10(0) == 1);
            assert(r == 0);
            assert(q == m.1) by (nonlinear_arith)
                requires
                    m.1 == pow10(s) * q + r,
                    pow10(s) == 1,
                    r == 0,
            ;
            lemma_fixed_of_parts(m.0, q, Seq::empty());
            assert(f == 0);
            assert(digits(0) =~= Seq::<char>::empty());
            assert(zero_padded(digits(0), SCALE as nat) =~= zeros(SCALE as nat));
            assert(shown(m) == m);
            assert(display_text(m) == sign_text(m.0) + whole_text(q));
            assert(amount_text(m) == sign_text(m.0) + whole_text(q) + seq!['.'] + zeros(SCALE as nat));
        } else {
            let fr = zero_padded(digits(r), s);
            lemma_fixed_of_parts(m.0, q, fr);
            assert(shown(m) == m);
            assert(display_text(m) == sign_text(m.0) + whole_text(q) + seq!['.'] + fr);
            assert(amount_text(m) == sign_text(m.0) + whole_text(q) + seq!['.'] + fr + zeros(k));
        }
    }
    let w = n / big;
    let p = pow10((MAX_SCALE - SCALE) as nat);
    lemma_pow10_positive((MAX_SCALE - SCALE) as nat);
    lemma_digits_plain(w);
    if w > 0 {
        lemma_digits_len_pos(w);
    }
    assert(whole_text(w).len() >= 1 && whole_text(w)[0] != '-');
    assert(n * p >= 0 && (n != 0 ==> n * p > 0)) by (nonlinear_arith)
        requires
            p >= 1,
    ;
    let e = exact_text(m.0, n);
    if m.0 && n != 0 {
        assert(e[0] == '-');
    } else {
        assert(e[0] == whole_text(w)[0]);
    }
}

/// A positive number has at least one digit.
proof fn lemma_digits_len_pos(m: nat)
    requires
        m > 0,
    ensures
        digits(m).len() >= 1,
{
    assert(digits(m) == digits(m / 10) + seq![digit_char(m % 10)]);
}

/// A number below 10^s has at most `s` digits.
proof fn lemma_digits_len(r: nat, s: nat)
    requires
        r < pow10(s),
    ensures
        digits(r).len() <= s,
        r > 0 ==> digits(r).len() >= 1,
    decreases s,
{
    if r > 0 {
        assert(s > 0) by {
            if s == 0 {
                assert(pow10(0) == 1);
            }
        }
        lemma_digits_len(r / 10, (s - 1) as nat);
    }
}

/// Digits are neither '.' nor '-'.
proof fn lemma_digits_plain(m: nat)
    ensures
        forall|i: int| 0 <= i < digits(m).len() ==> digits(m)[i] != '.' && digits(m)[i] != '-',
    decreases m,
{
    if m > 0 {
        lemma_digits_plain(m / 10);
        assert(digits(m) == digits(m / 10) + seq![digit_char(m % 10)]);
    }
}

/// Splitting off the last `s` digits: the digits of `q * 10^s + r` are those
/// of `q` followed by `r` written with exactly `s` digits.
proof fn lemma_digits_split(q: nat, r: nat, s: nat)
    requires
        q > 0,
        r < pow10(s),
    ensures
        digits(q * pow10(s) + r) == digits(q) + zero_padded(digits(r), s),
    decreases s,
{
    lemma_digits_len(r, s);
    if s == 0 {
        assert(pow10(0) == 1);
        assert(r == 0);
        assert(q * pow10(s) + r == q);
        assert(zero_padded(digits(r), s) =~= Seq::<char>::empty());
        assert(digits(q) + Seq::<char>::empty() =~= digits(q));
    } else {
        let s1 = (s - 1) as nat;
        let x = q * pow10(s) + r;
        assert(pow10(s) == 10 * pow10(s1));
        assert(x == (q * pow10(s1) + r / 10) * 10 + r % 10) by (nonlinear_arith)
            requires
                x == q * pow10(s) + r,
                pow10(s) == 10 * pow10(s1),
                r == 10 * (r / 10) + r % 10,
        ;
        lemma_pow10_positive(s1);
        assert(q * pow10(s1) + r / 10 > 0) by (nonlinear_arith)
            requires
                q > 0,
                pow10(s1) >= 1,
        ;
        assert(x / 10 == q * pow10(s1) + r / 10);
        assert(x % 10 == r % 10);
        assert(r / 10 < pow10(s1));
        lemma_digits_split(q, r / 10, s1);
        lemma_digits_len(r / 10, s1);
        assert(digits(x) == digits(x / 10) + seq![digit_char(x % 10)]);
        if r > 0 {
            assert(digits(r) == digits(r / 10) + seq![digit_char(r % 10)]);
            assert(zero_padded(digits(r / 10), s1) + seq![digit_char(r % 10)] =~= zero_padded(
                digits(r),
                s,
            ));
        } else {
            assert(digit_char(0) == '0');
            assert(zero_padded(digits(r / 10), s1) + seq![digit_char(r % 10)] =~= zero_padded(
                digits(r),
                s,
            ));
        }
        assert(digits(x) =~= digits(q) + zero_padded(digits(r), s));
    }
}

} // verus!
