//! Number-text semantics: which character runs form a number, and the exact
//! micro-unit value such a run denotes.
//!
//! A number is an optional minus sign, a mantissa of digits with at most one
//! decimal point (and at least one digit), and an optional exponent part
//! `e`/`E` with an optional sign and at least one digit. Its value is the
//! exact decimal, scaled to micro-units, truncated toward zero and saturated
//! at [`crate::fx::FX_MAX`].

use vstd::prelude::*;
use vstd::arithmetic::div_mod::{
    lemma_fundamental_div_mod, lemma_fundamental_div_mod_converse_div,
};
use vstd::arithmetic::mul::lemma_mul_inequality;
use vstd::string::StrSliceExecFns;

use crate::fx::FX_MAX;

verus! {

/// Cap for accumulated exponent magnitudes; far beyond any shift that can
/// matter for a saturating micro-unit result.
pub const E_CAP: i128 = 1_000_000_000_000_000_000_000;

/// ASCII decimal digit.
pub open spec fn is_digit_c(c: char) -> bool {
    48 <= c as u32 <= 57
}

/// Value of an ASCII digit.
pub open spec fn digit_val(c: char) -> u8 {
    (c as u32 - 48) as u8
}

/// First index at or after `i` whose character satisfies `pred`, or the
/// length of `s` if none does.
pub open spec fn first_idx(s: Seq<char>, i: int, pred: spec_fn(char) -> bool) -> int
    decreases s.len() - i,
{
    if i < 0 || i >= s.len() {
        s.len() as int
    } else if pred(s[i]) {
        i
    } else {
        first_idx(s, i + 1, pred)
    }
}

pub proof fn lemma_first_idx_at(s: Seq<char>, i: int, p: int, pred: spec_fn(char) -> bool)
    requires
        0 <= i <= p <= s.len(),
        forall|q: int| i <= q < p ==> !pred(s[q]),
        p < s.len() ==> pred(s[p]),
    ensures
        first_idx(s, i, pred) == if p < s.len() {
            p
        } else {
            s.len() as int
        },
    decreases p - i,
{
    if i < p {
        lemma_first_idx_at(s, i + 1, p, pred);
    }
}

/// The digit characters of a run, in order, as digit values; any other
/// character is passed over.
pub open spec fn digit_seq(m: Seq<char>) -> Seq<u8>
    decreases m.len(),
{
    if m.len() == 0 {
        Seq::empty()
    } else if is_digit_c(m.last()) {
        digit_seq(m.drop_last()).push(digit_val(m.last()))
    } else {
        digit_seq(m.drop_last())
    }
}

/// The integer a digit sequence denotes, most significant first.
pub open spec fn digits_val(ds: Seq<u8>) -> int
    decreases ds.len(),
{
    if ds.len() == 0 {
        0
    } else {
        digits_val(ds.drop_last()) * 10 + ds.last()
    }
}

pub proof fn lemma_digits_val_nonneg(ds: Seq<u8>)
    ensures
        digits_val(ds) >= 0,
    decreases ds.len(),
{
    if ds.len() > 0 {
        lemma_digits_val_nonneg(ds.drop_last());
    }
}

pub open spec fn pow10(n: nat) -> int
    decreases n,
{
    if n == 0 {
        1
    } else {
        10 * pow10((n - 1) as nat)
    }
}

pub proof fn lemma_pow10_pos(n: nat)
    ensures
        pow10(n) >= 1,
    decreases n,
{
    if n > 0 {
        lemma_pow10_pos((n - 1) as nat);
    }
}

pub open spec fn is_dot(c: char) -> bool {
    c == '.'
}

pub open spec fn is_exp_mark(c: char) -> bool {
    c == 'e' || c == 'E'
}

/// A valid mantissa: only digits and at most one decimal point, with at
/// least one digit.
pub open spec fn valid_mantissa(m: Seq<char>) -> bool {
    &&& forall|i: int| 0 <= i < m.len() ==> (is_digit_c(m[i]) || m[i] == '.')
    &&& forall|i: int| 0 <= i < m.len() && m[i] == '.' ==> i == first_idx(m, 0, |c: char| is_dot(c))
    &&& digit_seq(m).len() > 0
}

/// Number of digits after the decimal point of a mantissa.
pub open spec fn frac_len(m: Seq<char>) -> int {
    let d = first_idx(m, 0, |c: char| is_dot(c));
    if d < m.len() {
        m.len() - 1 - d
    } else {
        0
    }
}

/// The digit part of an exponent, after its optional sign.
pub open spec fn exp_digits(x: Seq<char>) -> Seq<char> {
    if x.len() > 0 && (x[0] == '+' || x[0] == '-') {
        x.skip(1)
    } else {
        x
    }
}

pub open spec fn exp_is_neg(x: Seq<char>) -> bool {
    x.len() > 0 && x[0] == '-'
}

pub open spec fn valid_exp(x: Seq<char>) -> bool {
    &&& exp_digits(x).len() > 0
    &&& forall|i: int| 0 <= i < exp_digits(x).len() ==> is_digit_c(exp_digits(x)[i])
}

pub open spec fn exp_val(x: Seq<char>) -> int {
    if exp_is_neg(x) {
        -digits_val(digit_seq(exp_digits(x)))
    } else {
        digits_val(digit_seq(exp_digits(x)))
    }
}

/// The unsigned part of a number run: everything after an optional minus.
pub open spec fn num_body(s: Seq<char>) -> Seq<char> {
    if s.len() > 0 && s[0] == '-' {
        s.skip(1)
    } else {
        s
    }
}

pub open spec fn num_is_neg(s: Seq<char>) -> bool {
    s.len() > 0 && s[0] == '-'
}

/// Whether a character run is a well-formed number.
pub open spec fn valid_number(s: Seq<char>) -> bool {
    let b = num_body(s);
    let k = first_idx(b, 0, |c: char| is_exp_mark(c));
    &&& valid_mantissa(b.take(k))
    &&& (k < b.len() ==> valid_exp(b.skip(k + 1)))
}

pub open spec fn cap_fx(v: int) -> int {
    if v > FX_MAX as int {
        FX_MAX as int
    } else {
        v
    }
}

/// The micro-unit magnitude of a digit string shifted by `sh` decimal
/// places: multiplied out for a left shift, truncated toward zero for a
/// right shift, saturated at `FX_MAX`.
pub open spec fn shifted_mag(dv: int, sh: int) -> int {
    if sh >= 0 {
        cap_fx(dv * pow10(sh as nat))
    } else {
        cap_fx(dv / pow10((-sh) as nat))
    }
}

/// The exact micro-unit value of a well-formed number run.
pub open spec fn num_value(s: Seq<char>) -> int {
    let b = num_body(s);
    let k = first_idx(b, 0, |c: char| is_exp_mark(c));
    let m = b.take(k);
    let e = if k < b.len() {
        exp_val(b.skip(k + 1))
    } else {
        0
    };
    let sh = e + 6 - frac_len(m);
    let mag = shifted_mag(digits_val(digit_seq(m)), sh);
    if num_is_neg(s) {
        -mag
    } else {
        mag
    }
}

pub proof fn lemma_pow10_mono(a: nat, b: nat)
    requires
        a <= b,
    ensures
        pow10(a) <= pow10(b),
    decreases b,
{
    if a < b {
        lemma_pow10_mono(a, (b - 1) as nat);
        lemma_pow10_pos((b - 1) as nat);
    }
}

pub proof fn lemma_digit_seq_bounded(m: Seq<char>)
    ensures
        forall|i: int| 0 <= i < digit_seq(m).len() ==> digit_seq(m)[i] <= 9,
    decreases m.len(),
{
    if m.len() > 0 {
        lemma_digit_seq_bounded(m.drop_last());
        let dsq = digit_seq(m);
        let dsl = digit_seq(m.drop_last());
        assert forall|i: int| 0 <= i < dsq.len() implies dsq[i] <= 9 by {
            if is_digit_c(m.last()) {
                if i < dsq.len() - 1 {
                    assert(dsq[i] == dsl[i]);
                }
            }
        }
    }
}

/// A digit string of length `n` denotes a value below `10^n`.
pub proof fn lemma_dv_upper(ds: Seq<u8>)
    requires
        forall|i: int| 0 <= i < ds.len() ==> ds[i] <= 9,
    ensures
        0 <= digits_val(ds) < pow10(ds.len() as nat),
    decreases ds.len(),
{
    if ds.len() == 0 {
    } else {
        let dl = ds.drop_last();
        lemma_dv_upper(dl);
        assert(digits_val(dl) * 10 <= (pow10(dl.len() as nat) - 1) * 10) by (nonlinear_arith)
            requires
                digits_val(dl) <= pow10(dl.len() as nat) - 1,
        ;
    }
}

/// Dropping the last `len - k` digits of a digit string divides its value by
/// the matching power of ten, truncating.
pub proof fn lemma_dv_prefix(ds: Seq<u8>, k: int)
    requires
        0 <= k <= ds.len(),
        forall|i: int| 0 <= i < ds.len() ==> ds[i] <= 9,
    ensures
        digits_val(ds.take(k)) == digits_val(ds) / pow10((ds.len() - k) as nat),
    decreases ds.len() - k,
{
    if k == ds.len() {
        assert(ds.take(k) =~= ds);
        lemma_dv_upper(ds);
        lemma_fundamental_div_mod_converse_div(digits_val(ds), 1, digits_val(ds), 0);
    } else {
        let dl = ds.drop_last();
        assert(ds.take(k) =~= dl.take(k));
        assert(forall|i: int| 0 <= i < dl.len() ==> dl[i] <= 9);
        lemma_dv_prefix(dl, k);
        let p = pow10((dl.len() - k) as nat);
        lemma_pow10_pos((dl.len() - k) as nat);
        let q = digits_val(dl) / p;
        let r = digits_val(dl) % p;
        lemma_dv_upper(dl);
        lemma_fundamental_div_mod(digits_val(dl), p);
        let last = ds.last() as int;
        assert(digits_val(ds) == digits_val(dl) * 10 + last);
        assert((q * p + r) * 10 + last == q * (10 * p) + (10 * r + last)) by (nonlinear_arith);
        assert(0 <= 10 * r + last < 10 * p);
        lemma_fundamental_div_mod_converse_div(digits_val(ds), 10 * p, q, 10 * r + last);
        assert(pow10((ds.len() - k) as nat) == 10 * p);
    }
}

/// Capping before a further scale-up by a power of ten gives the same capped
/// result as scaling the exact value.
pub proof fn lemma_cap_scale(dv: int, n: nat)
    requires
        dv >= 0,
    ensures
        cap_fx(cap_fx(dv) * pow10(n)) == cap_fx(dv * pow10(n)),
{
    lemma_pow10_pos(n);
    if dv > FX_MAX as int {
        lemma_mul_inequality(FX_MAX as int, dv, pow10(n));
        lemma_mul_inequality(1, pow10(n), FX_MAX as int);
        assert(FX_MAX as int * pow10(n) >= FX_MAX as int * 1) by (nonlinear_arith)
            requires
                pow10(n) >= 1,
        ;
    }
}

fn digit_of(c: char) -> (d: u8)
    requires
        is_digit_c(c),
    ensures
        d == digit_val(c),
        d <= 9,
{
    ((c as u32) - 48) as u8
}

fn is_digit_exec(c: char) -> (b: bool)
    ensures
        b == is_digit_c(c),
{
    let u = c as u32;
    48 <= u && u <= 57
}

/// Fold the first `k` digits into a value capped at `FX_MAX`.
fn fold_digits_capped(ds: &Vec<u8>, k: usize) -> (acc: u64)
    requires
        k <= ds@.len(),
        forall|i: int| 0 <= i < ds@.len() ==> ds@[i] <= 9,
    ensures
        acc as int == cap_fx(digits_val(ds@.take(k as int))),
        acc <= FX_MAX as u64,
{
    let mut acc: u64 = 0;
    let mut t: usize = 0;
    proof {
        assert(ds@.take(0) =~= Seq::<u8>::empty());
    }
    while t < k
        invariant
            t <= k <= ds@.len(),
            forall|i: int| 0 <= i < ds@.len() ==> ds@[i] <= 9,
            acc as int == cap_fx(digits_val(ds@.take(t as int))),
            acc <= FX_MAX as u64,
        decreases k - t,
    {
        let d = ds[t];
        proof {
            let pref = ds@.take(t as int);
            let next = ds@.take(t + 1 as int);
            assert(next.drop_last() =~= pref);
            assert(next.last() == ds@[t as int]);
            lemma_digits_prefix_bounded(ds@, t as int);
            lemma_dv_upper(pref);
        }
        let grown: u64 = acc * 10 + (d as u64);
        acc = if grown > FX_MAX as u64 {
            FX_MAX as u64
        } else {
            grown
        };
        proof {
            let dvp = digits_val(ds@.take(t as int));
            let dvn = digits_val(ds@.take(t + 1 as int));
            lemma_digits_val_nonneg(ds@.take(t as int));
            assert(dvn == dvp * 10 + ds@[t as int]);
            if dvp > FX_MAX as int {
                assert(dvn >= dvp);
                assert(acc as int == cap_fx(dvn));
            } else {
                assert(grown as int == dvn);
                assert(acc as int == cap_fx(dvn));
            }
        }
        t = t + 1;
    }
    acc
}

proof fn lemma_digits_prefix_bounded(ds: Seq<u8>, t: int)
    requires
        0 <= t <= ds.len(),
        forall|i: int| 0 <= i < ds.len() ==> ds[i] <= 9,
    ensures
        forall|i: int| 0 <= i < t ==> ds.take(t)[i] <= 9,
{
}

/// Multiply a capped accumulator by ten `sh` times, capping at `FX_MAX`.
fn scale_up_capped(acc0: u64, sh: i128) -> (acc: u64)
    requires
        sh >= 0,
        acc0 <= FX_MAX as u64,
    ensures
        acc as int == cap_fx((acc0 as int) * pow10(sh as nat)),
        acc <= FX_MAX as u64,
{
    let mut acc: u64 = acc0;
    let mut t: i128 = 0;
    proof {
        assert(pow10(0) == 1);
        assert((acc0 as int) * 1 == acc0 as int);
        assert(cap_fx(acc0 as int) == acc0 as int);
    }
    while t < sh
        invariant
            0 <= t <= sh,
            acc <= FX_MAX as u64,
            acc as int == cap_fx((acc0 as int) * pow10(t as nat)),
        decreases sh - t,
    {
        if acc == 0 {
            proof {
                lemma_pow10_pos(t as nat);
                lemma_pow10_pos(sh as nat);
                assert((acc0 as int) * pow10(t as nat) >= 0) by (nonlinear_arith)
                    requires
                        acc0 as int >= 0,
                        pow10(t as nat) > 0,
                ;
                assert((acc0 as int) * pow10(t as nat) == 0 ==> acc0 as int == 0) by (nonlinear_arith)
                    requires
                        pow10(t as nat) > 0,
                ;
                assert((acc0 as int) * pow10(sh as nat) == 0) by (nonlinear_arith)
                    requires
                        acc0 as int == 0,
                ;
            }
            return 0;
        }
        if acc == FX_MAX as u64 {
            proof {
                let pt = pow10(t as nat);
                let ps = pow10(sh as nat);
                lemma_pow10_pos(t as nat);
                lemma_pow10_mono(t as nat, sh as nat);
                assert((acc0 as int) * pt <= (acc0 as int) * ps) by (nonlinear_arith)
                    requires
                        acc0 as int >= 0,
                        pt <= ps,
                ;
                assert(cap_fx((acc0 as int) * pt) == FX_MAX as int);
                assert((acc0 as int) * pt >= FX_MAX as int);
            }
            return FX_MAX as u64;
        }
        proof {
            let pt = pow10(t as nat);
            lemma_pow10_pos(t as nat);
            assert((acc0 as int) * pt >= 0) by (nonlinear_arith)
                requires
                    acc0 as int >= 0,
                    pt > 0,
            ;
            assert(cap_fx((acc0 as int) * pt) < FX_MAX as int ==> (acc0 as int) * pt < FX_MAX as int);
            assert(pow10((t + 1) as nat) == 10 * pt);
            assert((acc0 as int) * (10 * pt) == ((acc0 as int) * pt) * 10) by (nonlinear_arith);
        }
        let grown: u64 = acc * 10;
        acc = if grown > FX_MAX as u64 {
            FX_MAX as u64
        } else {
            grown
        };
        t = t + 1;
    }
    acc
}

/// Scan a mantissa run: collect its digits, locate its decimal point and
/// check its characters.
fn scan_mantissa(s: &str, start: usize, k: usize) -> (r: (Vec<u8>, Option<usize>, bool, bool))
    requires
        start <= k <= s@.len(),
    ensures
        ({
            let mm = s@.subrange(start as int, k as int);
            let (ds, dot, chars_ok, dots_ok) = r;
            &&& ds@ == digit_seq(mm)
            &&& chars_ok == (forall|i: int|
                0 <= i < mm.len() ==> (is_digit_c(mm[i]) || mm[i] == '.'))
            &&& dots_ok == (forall|i: int|
                0 <= i < mm.len() && mm[i] == '.' ==> i == first_idx(mm, 0, |c: char| is_dot(c)))
            &&& match dot {
                Some(p) => p < mm.len() && mm[p as int] == '.' && first_idx(
                    mm,
                    0,
                    |c: char| is_dot(c),
                ) == p as int,
                None => first_idx(mm, 0, |c: char| is_dot(c)) == mm.len() as int,
            }
        }),
{
    let ghost mm = s@.subrange(start as int, k as int);
    let mut ds: Vec<u8> = Vec::new();
    let mut dot: Option<usize> = None;
    let mut chars_ok: bool = true;
    let mut dots_ok: bool = true;
    let mut j: usize = start;
    proof {
        assert(mm.take(0) =~= Seq::<char>::empty());
    }
    while j < k
        invariant
            start <= j <= k <= s@.len(),
            mm == s@.subrange(start as int, k as int),
            ds@ == digit_seq(mm.take(j - start)),
            chars_ok == (forall|i: int|
                0 <= i < j - start ==> (is_digit_c(mm[i]) || mm[i] == '.')),
            match dot {
                Some(p) => p < j - start && mm[p as int] == '.' && (forall|q: int|
                    0 <= q < p ==> mm[q] != '.'),
                None => forall|q: int| 0 <= q < j - start ==> mm[q] != '.',
            },
            dots_ok == (forall|i: int|
                0 <= i < j - start && mm[i] == '.' ==> (dot is Some && i == dot->0 as int)),
        decreases k - j,
    {
        let c = s.get_char(j);
        proof {
            assert(mm[(j - start) as int] == c);
            assert(mm.take((j - start) + 1).drop_last() =~= mm.take(j - start));
            assert(mm.take((j - start) + 1).last() == c);
        }
        if is_digit_exec(c) {
            ds.push(digit_of(c));
        } else if c == '.' {
            if dot.is_none() {
                dot = Some(j - start);
            } else {
                dots_ok = false;
            }
        } else {
            chars_ok = false;
        }
        j = j + 1;
    }
    proof {
        assert(mm.take(k - start) =~= mm);
        match dot {
            Some(p) => {
                lemma_first_idx_at(mm, 0, p as int, |c: char| is_dot(c));
            },
            None => {
                lemma_first_idx_at(mm, 0, mm.len() as int, |c: char| is_dot(c));
            },
        }
    }
    (ds, dot, chars_ok, dots_ok)
}

/// Scan an exponent part (everything after the `e` mark): its sign, its
/// capped magnitude and whether it is well formed.
fn scan_exponent(s: &str, pos: usize) -> (r: (bool, i128, bool))
    requires
        pos <= s@.len(),
    ensures
        ({
            let x = s@.subrange(pos as int, s@.len() as int);
            let (eneg, acc, ok) = r;
            &&& eneg == exp_is_neg(x)
            &&& ok == valid_exp(x)
            &&& ok ==> acc == cap_e(digits_val(digit_seq(exp_digits(x))))
            &&& 0 <= acc <= E_CAP
        }),
{
    let ghost x = s@.subrange(pos as int, s@.len() as int);
    let n = s.unicode_len();
    let mut eneg = false;
    let mut j: usize = pos;
    if j < n {
        let c0 = s.get_char(j);
        proof {
            assert(x[0] == c0);
        }
        if c0 == '-' {
            eneg = true;
            j = j + 1;
        } else if c0 == '+' {
            j = j + 1;
        }
    }
    let ghost xd = exp_digits(x);
    proof {
        assert(xd =~= s@.subrange(j as int, s@.len() as int));
    }
    if j == n {
        return (eneg, 0, false);
    }
    let mut acc: i128 = 0;
    let mut ok: bool = true;
    let start = j;
    proof {
        assert(xd.take(0) =~= Seq::<char>::empty());
    }
    while j < n
        invariant
            pos <= start <= j <= n == s@.len(),
            xd == s@.subrange(start as int, s@.len() as int),
            ok == (forall|i: int| 0 <= i < j - start ==> is_digit_c(xd[i])),
            0 <= acc <= E_CAP,
            acc == cap_e(digits_val(digit_seq(xd.take(j - start)))),
        decreases n - j,
    {
        let c = s.get_char(j);
        proof {
            assert(xd[(j - start) as int] == c);
            assert(xd.take((j - start) + 1).drop_last() =~= xd.take(j - start));
            assert(xd.take((j - start) + 1).last() == c);
        }
        if is_digit_exec(c) {
            let d = digit_of(c);
            proof {
                let dq = digit_seq(xd.take(j - start));
                let dq2 = digit_seq(xd.take((j - start) + 1));
                lemma_digits_val_nonneg(dq);
                assert(dq2 == dq.push(d));
                assert(dq.push(d).drop_last() =~= dq);
                assert(dq.push(d).last() == d);
                assert(digits_val(dq2) == digits_val(dq) * 10 + d);
            }
            let grown: i128 = acc * 10 + (d as i128);
            acc = if grown > E_CAP {
                E_CAP
            } else {
                grown
            };
            proof {
                let dvp = digits_val(digit_seq(xd.take(j - start)));
                let dvn = digits_val(digit_seq(xd.take((j - start) + 1)));
                if dvp > E_CAP as int {
                    assert(dvn >= dvp);
                    assert(acc as int == cap_e(dvn));
                } else {
                    assert(acc as int == cap_e(dvn));
                }
            }
        } else {
            ok = false;
            proof {
                let dvn = digits_val(digit_seq(xd.take((j - start) + 1)));
                assert(digit_seq(xd.take((j - start) + 1)) == digit_seq(xd.take(j - start)));
            }
        }
        j = j + 1;
    }
    proof {
        assert(xd.take(n - start) =~= xd);
        assert(xd.len() > 0);
    }
    (eneg, acc, ok)
}

pub open spec fn cap_e(v: int) -> int {
    if v > E_CAP as int {
        E_CAP as int
    } else {
        v
    }
}

/// Beyond sixteen decimal places of left shift, any nonzero digit string
/// saturates; the exact shift no longer matters.
proof fn lemma_mag_big(dv: int, sh1: nat, sh2: nat)
    requires
        dv >= 0,
        sh1 >= 16,
        sh2 >= 16,
    ensures
        cap_fx(dv * pow10(sh1)) == cap_fx(dv * pow10(sh2)),
{
    assert(pow10(16) > FX_MAX as int) by {
        reveal_with_fuel(pow10, 17);
    }
    if dv == 0 {
        assert(0 * pow10(sh1) == 0) by (nonlinear_arith);
        assert(0 * pow10(sh2) == 0) by (nonlinear_arith);
    } else {
        lemma_pow10_mono(16, sh1);
        lemma_pow10_mono(16, sh2);
        lemma_mul_inequality(1, dv, pow10(sh1));
        lemma_mul_inequality(1, dv, pow10(sh2));
        assert(1 * pow10(sh1) == pow10(sh1)) by (nonlinear_arith);
        assert(1 * pow10(sh2) == pow10(sh2)) by (nonlinear_arith);
    }
}

/// A number run's value always lies within the saturation bounds.
pub proof fn lemma_num_value_bounded(s: Seq<char>)
    ensures
        -(FX_MAX as int) <= num_value(s) <= FX_MAX as int,
{
    let b = num_body(s);
    let k = first_idx(b, 0, |c: char| is_exp_mark(c));
    let m = b.take(k);
    let e = if k < b.len() {
        exp_val(b.skip(k + 1))
    } else {
        0
    };
    let sh = e + 6 - frac_len(m);
    let dv = digits_val(digit_seq(m));
    lemma_digits_val_nonneg(digit_seq(m));
    if sh >= 0 {
        lemma_pow10_pos(sh as nat);
        assert(dv * pow10(sh as nat) >= 0) by (nonlinear_arith)
            requires
                dv >= 0,
                pow10(sh as nat) > 0,
        ;
    } else {
        lemma_pow10_pos((-sh) as nat);
        vstd::arithmetic::div_mod::lemma_div_pos_is_pos(dv, pow10((-sh) as nat));
    }
}

fn is_exp_mark_at(s: &str, i: usize) -> (r: bool)
    requires
        i < s@.len(),
    ensures
        r == is_exp_mark(s@[i as int]),
{
    let c = s.get_char(i);
    c == 'e' || c == 'E'
}

/// Recognize a number run and give its exact micro-unit value; yield nothing
/// on a run that is not a well-formed number.
#[verifier::rlimit(60)]
pub fn parse_number(s: &str) -> (r: Option<i64>)
    ensures
        r is Some <==> valid_number(s@),
        r matches Some(v) ==> v as int == num_value(s@),
{
    let n = s.unicode_len();
    let neg = if n > 0 {
        s.get_char(0) == '-'
    } else {
        false
    };
    let start: usize = if neg {
        1
    } else {
        0
    };
    let ghost b = num_body(s@);
    proof {
        assert(neg == num_is_neg(s@));
        if neg {
            assert(b =~= s@.subrange(start as int, n as int));
        } else {
            assert(b =~= s@.subrange(start as int, n as int));
        }
    }
    // locate the exponent mark
    let mut ka: usize = start;
    while ka < n && !is_exp_mark_at(s, ka)
        invariant
            start <= ka <= n == s@.len(),
            forall|q: int| start <= q < ka ==> !is_exp_mark(s@[q]),
        decreases n - ka,
    {
        ka = ka + 1;
    }
    let ghost km = ka - start;
    proof {
        assert(b.len() == n - start);
        assert forall|q: int| 0 <= q < km implies !is_exp_mark(b[q]) by {
            assert(b[q] == s@[q + start]);
        }
        if ka < n {
            assert(b[km as int] == s@[ka as int]);
        }
        lemma_first_idx_at(b, 0, km as int, |c: char| is_exp_mark(c));
        assert(first_idx(b, 0, |c: char| is_exp_mark(c)) == km);
    }
    let (ds, dot, chars_ok, dots_ok) = scan_mantissa(s, start, ka);
    let ghost mm = s@.subrange(start as int, ka as int);
    proof {
        assert(mm =~= b.take(km as int));
    }
    let mantissa_ok = chars_ok && dots_ok && ds.len() > 0;
    proof {
        assert(mantissa_ok == valid_mantissa(mm));
    }
    let has_exp = ka < n;
    let (eneg, eacc, eok) = if has_exp {
        scan_exponent(s, ka + 1)
    } else {
        (false, 0i128, true)
    };
    let ghost x = b.skip(km + 1);
    proof {
        if has_exp {
            assert(x =~= s@.subrange(ka + 1, n as int));
        }
    }
    if !mantissa_ok || !eok {
        proof {
            assert(!valid_number(s@));
        }
        return None;
    }
    proof {
        assert(valid_number(s@));
    }
    let ghost dv_e: int = if has_exp {
        digits_val(digit_seq(exp_digits(x)))
    } else {
        0
    };
    let ghost e_true: int = if has_exp {
        exp_val(x)
    } else {
        0
    };
    proof {
        if has_exp {
            lemma_digits_val_nonneg(digit_seq(exp_digits(x)));
            assert(eacc == cap_e(dv_e));
            assert(eneg == exp_is_neg(x));
        }
    }
    let e_capped: i128 = if eneg {
        -eacc
    } else {
        eacc
    };
    let frac: usize = match dot {
        Some(p) => ka - start - 1 - p,
        None => 0,
    };
    proof {
        assert(frac as int == frac_len(mm));
    }
    let sh_x: i128 = e_capped + 6 - (frac as i128);
    let ghost sh: int = e_true + 6 - frac_len(mm);
    let nd = ds.len();
    let ghost dv = digits_val(ds@);
    proof {
        lemma_digit_seq_bounded(mm);
        lemma_digits_val_nonneg(ds@);
        assert(ds@.take(nd as int) =~= ds@);
    }
    let mag: u64;
    if sh_x >= 0 {
        let a0 = fold_digits_capped(&ds, nd);
        mag = scale_up_capped(a0, sh_x);
        proof {
            lemma_cap_scale(dv, sh_x as nat);
            if !has_exp || dv_e <= E_CAP as int {
                assert(e_capped as int == e_true);
                assert(sh == sh_x as int);
            } else {
                assert(eacc == E_CAP);
                if eneg {
                    assert(e_capped == -E_CAP);
                    assert((frac as int) < 0x1_0000_0000_0000_0000);
                    assert(sh_x < 0);  // contradiction with this branch
                } else {
                    assert(e_true == dv_e);
                    assert(sh >= sh_x as int);
                    assert(sh_x >= 16);
                    lemma_mag_big(dv, sh_x as nat, sh as nat);
                }
            }
            assert(mag as int == shifted_mag(dv, sh));
        }
    } else {
        let kk: i128 = (nd as i128) + sh_x;
        proof {
            if has_exp && dv_e > E_CAP as int && !eneg {
                assert(e_capped == E_CAP);
                assert((frac as int) < 0x1_0000_0000_0000_0000);
                assert(sh_x > 0);  // contradiction with this branch
            }
        }
        if kk <= 0 {
            mag = 0;
            proof {
                lemma_dv_upper(ds@);
                if !has_exp || dv_e <= E_CAP as int {
                    assert(sh == sh_x as int);
                } else {
                    assert(eneg);
                    assert(e_true == -dv_e);
                    assert(sh <= sh_x as int);
                }
                assert(sh < 0);
                assert((-sh) as nat >= nd as nat);
                lemma_pow10_mono(nd as nat, (-sh) as nat);
                assert(0 <= dv < pow10((-sh) as nat));
                assert(dv / pow10((-sh) as nat) == 0) by {
                    lemma_pow10_pos((-sh) as nat);
                    vstd::arithmetic::div_mod::lemma_basic_div(dv, pow10((-sh) as nat));
                }
                assert(mag as int == shifted_mag(dv, sh));
            }
        } else {
            mag = fold_digits_capped(&ds, kk as usize);
            proof {
                assert(!has_exp || dv_e <= E_CAP as int || eneg);
                if has_exp && dv_e > E_CAP as int {
                    assert(eneg);
                    assert(e_true == -dv_e);
                    assert((nd as int) + sh <= (nd as int) + sh_x as int);
                    assert((nd as int) < 0x1_0000_0000_0000_0000);
                    assert((nd as int) + sh_x as int <= 0);  // contradiction
                }
                assert(sh == sh_x as int);
                lemma_dv_prefix(ds@, kk as int);
                assert((nd as int) - kk as int == -sh);
                assert(mag as int == cap_fx(dv / pow10((-sh) as nat)));
                assert(mag as int == shifted_mag(dv, sh));
            }
        }
    }
    let magi: i64 = mag as i64;
    proof {
        assert(digit_seq(mm) == ds@);
        assert(num_value(s@) == if neg {
            -(mag as int)
        } else {
            mag as int
        });
    }
    if neg {
        Some(-magi)
    } else {
        Some(magi)
    }
}

} // verus!
