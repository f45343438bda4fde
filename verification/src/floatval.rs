//! Floating-point cells, held as parsed decimal values.
//!
//! The verified library does not compute with machine floats.  A float
//! column instead holds each cell as the exact decimal the text gave:
//! a sign, a mantissa and a power of ten, or one of the special values.
//! A consumer turns a [`FloatValue`] into its machine float outside the
//! library.
use vstd::prelude::*;

verus! {

/// Largest mantissa that can still take one more digit without leaving u64.
pub const MANT_CAP: u64 = 1844674407370955160;

/// Exponent magnitude past which further exponent digits no longer matter.
pub const EXP_CAP: i32 = 1000000;

/// One floating-point cell: the special values, or a decimal
/// `(-1)^negative * mantissa * 10^exponent`.
#[derive(Clone, Copy, PartialEq, Eq, Structural, Debug)]
pub enum FloatValue {
    NaN,
    Inf { negative: bool },
    Num { negative: bool, mantissa: u64, exponent: i32 },
}

pub open spec fn is_digit(b: u8) -> bool {
    48 <= b && b <= 57
}

pub open spec fn lower_byte(b: u8) -> u8 {
    if 65 <= b && b <= 90 {
        (b + 32) as u8
    } else {
        b
    }
}

/// Case-insensitive equality of a byte string against a lower-case word.
pub open spec fn eq_word_ci(s: Seq<u8>, w: Seq<u8>) -> bool {
    s.len() == w.len() && forall|k: int| 0 <= k < s.len() ==> lower_byte(s[k]) == w[k]
}

pub open spec fn all_digits(s: Seq<u8>) -> bool {
    forall|k: int| 0 <= k < s.len() ==> is_digit(s[k])
}

/// The first index at or after `i` holding byte `b`, or the length.
pub open spec fn scan_to(s: Seq<u8>, i: int, b: u8) -> int
    decreases s.len() - i,
{
    if 0 <= i < s.len() {
        if s[i] == b {
            i
        } else {
            scan_to(s, i + 1, b)
        }
    } else {
        s.len() as int
    }
}

/// Fold digits into a capped mantissa.  A digit that no longer fits is
/// dropped; when `counting` (digits left of the point), each dropped digit
/// raises the exponent instead.
pub open spec fn acc_mantissa(s: Seq<u8>, mant: u64, extra: int, counting: bool) -> (u64, int)
    decreases s.len(),
{
    if s.len() == 0 {
        (mant, extra)
    } else {
        let d = (s[0] - 48) as u64;
        if mant <= MANT_CAP {
            acc_mantissa(s.skip(1), (mant * 10 + d) as u64, extra, counting)
        } else {
            acc_mantissa(
                s.skip(1),
                mant,
                if counting {
                    extra + 1
                } else {
                    extra
                },
                counting,
            )
        }
    }
}

/// Fold digits into a capped exponent magnitude.
pub open spec fn acc_exponent(s: Seq<u8>, acc: i32) -> i32
    decreases s.len(),
{
    if s.len() == 0 {
        acc
    } else {
        let d = (s[0] - 48) as i32;
        if acc < EXP_CAP {
            acc_exponent(s.skip(1), (acc * 10 + d) as i32)
        } else {
            acc_exponent(s.skip(1), acc)
        }
    }
}

/// Strip an optional leading sign: (negative, rest).
pub open spec fn split_sign(s: Seq<u8>) -> (bool, Seq<u8>) {
    if s.len() > 0 && s[0] == 45 {
        (true, s.skip(1))
    } else if s.len() > 0 && s[0] == 43 {
        (false, s.skip(1))
    } else {
        (false, s)
    }
}

pub open spec fn clamp_exponent(total: int) -> i32 {
    if total > 2147483647 {
        2147483647i32
    } else if total < -2147483648 {
        (-2147483648) as i32
    } else {
        total as i32
    }
}

/// The decimal value of a digit string `int_digits ++ '.' ++ frac_digits`
/// with a further exponent `exp`.
pub open spec fn number_value(int_digits: Seq<u8>, frac_digits: Seq<u8>, exp: int, neg: bool) -> FloatValue {
    let (m1, e1) = acc_mantissa(int_digits, 0u64, 0, true);
    let (m2, _e2) = acc_mantissa(frac_digits, m1, 0, false);
    let (_m3, dropped) = acc_mantissa(frac_digits, m1, 0, true);
    let kept = frac_digits.len() - dropped;
    FloatValue::Num { negative: neg, mantissa: m2, exponent: clamp_exponent(exp + e1 - kept) }
}

/// The number branch of the grammar: digits with an optional point and
/// an optional `e`/`E` exponent, over the sign-stripped text.
pub open spec fn spec_parse_number(rest: Seq<u8>, neg: bool) -> Option<FloatValue> {
    let epos = if scan_to(rest, 0, 101) < scan_to(rest, 0, 69) {
        scan_to(rest, 0, 101)
    } else {
        scan_to(rest, 0, 69)
    };
    let m = rest.take(epos);
    let dot = scan_to(m, 0, 46);
    let int_digits = m.take(dot);
    let frac_digits = if dot < m.len() {
        m.skip(dot + 1)
    } else {
        Seq::empty()
    };
    if !(all_digits(int_digits) && all_digits(frac_digits) && int_digits.len() + frac_digits.len()
        > 0) {
        None
    } else {
        if epos == rest.len() {
            Some(number_value(int_digits, frac_digits, 0, neg))
        } else {
            match spec_exp_part(rest, epos) {
                Some(e) => Some(number_value(int_digits, frac_digits, e, neg)),
                None => None,
            }
        }
    }
}

/// The exponent after the `e`/`E` at `epos`: an optional sign and digits.
pub open spec fn spec_exp_part(rest: Seq<u8>, epos: int) -> Option<int> {
    let ep = rest.skip(epos + 1);
    let (eneg, edigits) = split_sign(ep);
    if edigits.len() > 0 && all_digits(edigits) {
        let emag = acc_exponent(edigits, 0i32) as int;
        Some(
            if eneg {
                -emag
            } else {
                emag
            },
        )
    } else {
        None
    }
}

/// What parsing a float out of `s` yields, following the grammar that
/// `from_str` documents: an optional sign, then `inf`, `infinity` or `nan`
/// (case-insensitive), or digits with an optional point and an optional
/// `e`/`E` exponent.  Mantissa digits beyond what a u64 holds are dropped;
/// the exponent saturates.
pub open spec fn spec_parse_float(s: Seq<u8>) -> Option<FloatValue> {
    let (neg, rest) = split_sign(s);
    match spec_special(rest, neg) {
        Some(v) => Some(v),
        None => spec_parse_number(rest, neg),
    }
}

pub proof fn lemma_scan_to(s: Seq<u8>, j: int, b: u8, r: int)
    requires
        0 <= j <= r <= s.len(),
        forall|k: int| j <= k < r ==> s[k] != b,
        r < s.len() ==> s[r] == b,
    ensures
        scan_to(s, j, b) == if r < s.len() {
            r
        } else {
            s.len() as int
        },
    decreases r - j,
{
    if j < r {
        lemma_scan_to(s, j + 1, b, r);
    }
}

/// Folding the mantissa over `s` equals folding what is done so far and
/// then the rest.
proof fn lemma_acc_mantissa_step(s: Seq<u8>, i: int, mant: u64, extra: int, counting: bool)
    requires
        0 <= i < s.len(),
    ensures
        acc_mantissa(s.skip(i), mant, extra, counting) == (if mant <= MANT_CAP {
            acc_mantissa(s.skip(i + 1), (mant * 10 + ((s[i] - 48) as u64)) as u64, extra, counting)
        } else {
            acc_mantissa(
                s.skip(i + 1),
                mant,
                if counting {
                    extra + 1
                } else {
                    extra
                },
                counting,
            )
        }),
{
    assert(s.skip(i).len() > 0);
    assert(s.skip(i)[0] == s[i]);
    assert(s.skip(i).skip(1) =~= s.skip(i + 1));
}

proof fn lemma_acc_exponent_step(s: Seq<u8>, i: int, acc: i32)
    requires
        0 <= i < s.len(),
    ensures
        acc_exponent(s.skip(i), acc) == (if acc < EXP_CAP {
            acc_exponent(s.skip(i + 1), (acc * 10 + (s[i] - 48)) as i32)
        } else {
            acc_exponent(s.skip(i + 1), acc)
        }),
{
    assert(s.skip(i).len() > 0);
    assert(s.skip(i)[0] == s[i]);
    assert(s.skip(i).skip(1) =~= s.skip(i + 1));
}


pub(crate) fn lower_byte_exec(b: u8) -> (r: u8)
    ensures
        r == lower_byte(b),
{
    if 65 <= b && b <= 90 {
        b + 32
    } else {
        b
    }
}

/// Whether every byte of `s[from..to]` is a decimal digit.
pub(crate) fn check_digits(s: &Vec<u8>, from: usize, to: usize) -> (r: bool)
    requires
        from <= to <= s@.len(),
    ensures
        r == all_digits(s@.subrange(from as int, to as int)),
{
    let mut i: usize = from;
    while i < to
        invariant
            from <= i <= to <= s@.len(),
            forall|k: int| from <= k < i ==> is_digit(s@[k]),
        decreases to - i,
    {
        if s[i] < 48 || s[i] > 57 {
            proof {
                assert(!is_digit(s@.subrange(from as int, to as int)[i - from]));
            }
            return false;
        }
        i = i + 1;
    }
    proof {
        assert forall|k: int| 0 <= k < to - from implies #[trigger] is_digit(
            s@.subrange(from as int, to as int)[k],
        ) by {
            assert(s@.subrange(from as int, to as int)[k] == s@[from + k]);
        }
    }
    true
}

/// Fold the digits of `s[from..to]` into the mantissa, dropping digits
/// that no longer fit; when `counting`, a dropped digit raises `extra`.
fn acc_mantissa_exec(s: &Vec<u8>, from: usize, to: usize, mant0: u64, counting: bool) -> (r: (
    u64,
    usize,
))
    requires
        from <= to <= s@.len(),
        all_digits(s@.subrange(from as int, to as int)),
    ensures
        (r.0, r.1 as int) == acc_mantissa(s@.subrange(from as int, to as int), mant0, 0, counting),
        r.1 <= to - from,
{
    let ghost whole = s@.subrange(from as int, to as int);
    let mut mant: u64 = mant0;
    let mut extra: usize = 0;
    let mut i: usize = from;
    while i < to
        invariant
            from <= i <= to <= s@.len(),
            all_digits(s@.subrange(from as int, to as int)),
            extra <= i - from,
            acc_mantissa(whole, mant0, 0, counting) == acc_mantissa(
                s@.subrange(i as int, to as int),
                mant,
                extra as int,
                counting,
            ),
            whole == s@.subrange(from as int, to as int),
        decreases to - i,
    {
        let ghost rest = s@.subrange(i as int, to as int);
        proof {
            assert(is_digit(whole[i - from]));
            assert(s@[i as int] == whole[i - from]);
            lemma_acc_mantissa_step(rest, 0, mant, extra as int, counting);
            assert(rest.skip(1) =~= s@.subrange(i + 1, to as int));
            assert(rest.skip(0) =~= rest);
            assert(rest[0] == s@[i as int]);
        }
        let d: u8 = s[i];
        if mant <= MANT_CAP {
            mant = mant * 10 + ((d - 48) as u64);
        } else if counting {
            extra = extra + 1;
        }
        i = i + 1;
    }
    proof {
        assert(s@.subrange(to as int, to as int) =~= Seq::<u8>::empty());
    }
    (mant, extra)
}

fn acc_exponent_exec(s: &Vec<u8>, from: usize, to: usize) -> (r: i32)
    requires
        from <= to <= s@.len(),
        all_digits(s@.subrange(from as int, to as int)),
    ensures
        r == acc_exponent(s@.subrange(from as int, to as int), 0i32),
        0 <= r <= EXP_CAP * 10 + 9,
{
    let ghost whole = s@.subrange(from as int, to as int);
    let mut acc: i32 = 0;
    let mut i: usize = from;
    while i < to
        invariant
            from <= i <= to <= s@.len(),
            all_digits(s@.subrange(from as int, to as int)),
            0 <= acc <= EXP_CAP * 10 + 9,
            acc_exponent(whole, 0i32) == acc_exponent(s@.subrange(i as int, to as int), acc),
            whole == s@.subrange(from as int, to as int),
        decreases to - i,
    {
        let ghost rest = s@.subrange(i as int, to as int);
        proof {
            assert(is_digit(whole[i - from]));
            assert(s@[i as int] == whole[i - from]);
            lemma_acc_exponent_step(rest, 0, acc);
            assert(rest.skip(1) =~= s@.subrange(i + 1, to as int));
            assert(rest.skip(0) =~= rest);
            assert(rest[0] == s@[i as int]);
        }
        let d: u8 = s[i];
        if acc < EXP_CAP {
            acc = acc * 10 + ((d - 48) as i32);
        }
        i = i + 1;
    }
    proof {
        assert(s@.subrange(to as int, to as int) =~= Seq::<u8>::empty());
    }
    acc
}

/// The special word, when the sign-stripped text is one.
pub open spec fn spec_special(rest: Seq<u8>, neg: bool) -> Option<FloatValue> {
    if eq_word_ci(rest, seq![105u8, 110u8, 102u8]) || eq_word_ci(
        rest,
        seq![105u8, 110u8, 102u8, 105u8, 110u8, 105u8, 116u8, 121u8],
    ) {
        Some(FloatValue::Inf { negative: neg })
    } else if eq_word_ci(rest, seq![110u8, 97u8, 110u8]) {
        Some(FloatValue::NaN)
    } else {
        None
    }
}

fn match_special(rest: &Vec<u8>, neg: bool) -> (r: Option<FloatValue>)
    ensures
        r == spec_special(rest@, neg),
{
    let n: usize = rest.len();
    if n == 3 && lower_byte_exec(rest[0]) == 105 && lower_byte_exec(rest[1]) == 110
        && lower_byte_exec(rest[2]) == 102 {
        proof {
            assert(eq_word_ci(rest@, seq![105u8, 110u8, 102u8]));
        }
        return Some(FloatValue::Inf { negative: neg });
    }
    if n == 8 && lower_byte_exec(rest[0]) == 105 && lower_byte_exec(rest[1]) == 110
        && lower_byte_exec(rest[2]) == 102 && lower_byte_exec(rest[3]) == 105 && lower_byte_exec(
        rest[4],
    ) == 110 && lower_byte_exec(rest[5]) == 105 && lower_byte_exec(rest[6]) == 116
        && lower_byte_exec(rest[7]) == 121 {
        proof {
            assert(eq_word_ci(rest@, seq![105u8, 110u8, 102u8, 105u8, 110u8, 105u8, 116u8, 121u8]));
        }
        return Some(FloatValue::Inf { negative: neg });
    }
    if n == 3 && lower_byte_exec(rest[0]) == 110 && lower_byte_exec(rest[1]) == 97
        && lower_byte_exec(rest[2]) == 110 {
        proof {
            assert(eq_word_ci(rest@, seq![110u8, 97u8, 110u8]));
        }
        return Some(FloatValue::NaN);
    }
    proof {
        if eq_word_ci(rest@, seq![105u8, 110u8, 102u8]) {
            assert(lower_byte(rest@[0]) == 105 && lower_byte(rest@[1]) == 110 && lower_byte(
                rest@[2],
            ) == 102);
        }
        if eq_word_ci(rest@, seq![105u8, 110u8, 102u8, 105u8, 110u8, 105u8, 116u8, 121u8]) {
            assert(lower_byte(rest@[0]) == 105 && lower_byte(rest@[1]) == 110 && lower_byte(
                rest@[2],
            ) == 102 && lower_byte(rest@[3]) == 105 && lower_byte(rest@[4]) == 110 && lower_byte(
                rest@[5],
            ) == 105 && lower_byte(rest@[6]) == 116 && lower_byte(rest@[7]) == 121);
        }
        if eq_word_ci(rest@, seq![110u8, 97u8, 110u8]) {
            assert(lower_byte(rest@[0]) == 110 && lower_byte(rest@[1]) == 97 && lower_byte(
                rest@[2],
            ) == 110);
        }
    }
    None
}

proof fn lemma_scan_to_min(s: Seq<u8>, j: int, b: u8)
    requires
        0 <= j <= s.len(),
    ensures
        scan_to(s, j, b) >= j,
    decreases s.len() - j,
{
    if j < s.len() && s[j] != b {
        lemma_scan_to_min(s, j + 1, b);
    }
}

proof fn lemma_scan_to_ge(s: Seq<u8>, j: int, b: u8, r: int)
    requires
        0 <= j <= r <= s.len(),
        forall|k: int| j <= k < r ==> s[k] != b,
    ensures
        scan_to(s, j, b) >= r,
    decreases r - j,
{
    if j < r {
        lemma_scan_to_ge(s, j + 1, b, r);
    } else {
        lemma_scan_to_min(s, j, b);
    }
}

/// The mantissa folded with and without counting drops is the same
/// mantissa; only the drop count differs.
proof fn lemma_acc_mantissa_counting(s: Seq<u8>, mant: u64, e_t: int, e_f: int)
    ensures
        acc_mantissa(s, mant, e_t, true).0 == acc_mantissa(s, mant, e_f, false).0,
    decreases s.len(),
{
    if s.len() > 0 {
        let d = (s[0] - 48) as u64;
        if mant <= MANT_CAP {
            lemma_acc_mantissa_counting(s.skip(1), (mant * 10 + d) as u64, e_t, e_f);
        } else {
            lemma_acc_mantissa_counting(s.skip(1), mant, e_t + 1, e_f);
        }
    }
}

/// The mantissa value and final exponent out of located digit ranges.
fn number_value_exec(
    rest: &Vec<u8>,
    dotr: usize,
    fr_from: usize,
    epos: usize,
    exp_total: i64,
    neg: bool,
) -> (r: FloatValue)
    requires
        dotr <= fr_from <= epos <= rest@.len(),
        dotr < epos ==> fr_from == dotr + 1,
        dotr == epos ==> fr_from == epos,
        all_digits(rest@.subrange(0, dotr as int)),
        all_digits(rest@.subrange(fr_from as int, epos as int)),
        -20000000 <= exp_total <= 20000000,
    ensures
        r == number_value(
            rest@.subrange(0, dotr as int),
            rest@.subrange(fr_from as int, epos as int),
            exp_total as int,
            neg,
        ),
{
    let ghost int_digits = rest@.subrange(0, dotr as int);
    let ghost frac_digits = rest@.subrange(fr_from as int, epos as int);
    let r1 = acc_mantissa_exec(rest, 0, dotr, 0, true);
    let m1: u64 = r1.0;
    let e1: usize = r1.1;
    let r2 = acc_mantissa_exec(rest, fr_from, epos, m1, true);
    let m2: u64 = r2.0;
    let dropped: usize = r2.1;
    let kept: usize = (epos - fr_from) - dropped;
    proof {
        lemma_acc_mantissa_counting(frac_digits, m1, 0, 0);
    }
    let total: i128 = (exp_total as i128) + (e1 as i128) - (kept as i128);
    let exponent: i32 = if total > 2147483647i128 {
        2147483647
    } else if total < -2147483648i128 {
        -2147483648
    } else {
        total as i32
    };
    FloatValue::Num { negative: neg, mantissa: m2, exponent }
}

/// The exponent part after the marker at `epos`.
fn parse_exp(rest: &Vec<u8>, epos: usize) -> (r: Option<i64>)
    requires
        epos < rest@.len(),
    ensures
        match spec_exp_part(rest@, epos as int) {
            Some(v) => r == Some(v as i64) && -20000000 <= v <= 20000000,
            None => r is None,
        },
{
    let n: usize = rest.len();
    let mut eneg: bool = false;
    let mut est: usize = epos + 1;
    if est < n && rest[est] == 45 {
        eneg = true;
        est = est + 1;
    } else if est < n && rest[est] == 43 {
        est = est + 1;
    }
    let ghost ep = rest@.skip(epos + 1);
    let ghost edigits = rest@.subrange(est as int, n as int);
    proof {
        assert(ep.len() > 0 ==> ep[0] == rest@[epos + 1]);
        assert(split_sign(ep) == (eneg, edigits)) by {
            if ep.len() > 0 && (ep[0] == 45 || ep[0] == 43) {
                assert(ep.skip(1) =~= edigits);
            } else {
                assert(ep =~= edigits);
            }
        }
    }
    if est >= n {
        return None;
    }
    if !check_digits(rest, est, n) {
        return None;
    }
    let emag: i32 = acc_exponent_exec(rest, est, n);
    if eneg {
        Some(-(emag as i64))
    } else {
        Some(emag as i64)
    }
}

/// The number branch over the sign-stripped text.
#[verifier::rlimit(60)]
fn parse_number(rest: &Vec<u8>, neg: bool) -> (r: Option<FloatValue>)
    ensures
        r == spec_parse_number(rest@, neg),
{
    let n: usize = rest.len();
    // Find the exponent marker.
    let mut epos: usize = 0;
    while epos < n && rest[epos] != 101 && rest[epos] != 69
        invariant
            epos <= n,
            n == rest@.len(),
            forall|k: int| 0 <= k < epos ==> rest@[k] != 101 && rest@[k] != 69,
        decreases n - epos,
    {
        epos = epos + 1;
    }
    proof {
        if epos < n {
            if rest@[epos as int] == 101 {
                lemma_scan_to(rest@, 0, 101, epos as int);
                lemma_scan_to_ge(rest@, 0, 69, epos as int);
            } else {
                lemma_scan_to(rest@, 0, 69, epos as int);
                lemma_scan_to_ge(rest@, 0, 101, epos as int);
            }
        } else {
            lemma_scan_to(rest@, 0, 101, n as int);
            lemma_scan_to(rest@, 0, 69, n as int);
        }
        assert(epos as int == if scan_to(rest@, 0, 101) < scan_to(rest@, 0, 69) {
            scan_to(rest@, 0, 101)
        } else {
            scan_to(rest@, 0, 69)
        });
    }
    // Find the decimal point inside the mantissa part.
    let mut dotr: usize = 0;
    while dotr < epos && rest[dotr] != 46
        invariant
            dotr <= epos <= n,
            n == rest@.len(),
            forall|k: int| 0 <= k < dotr ==> rest@[k] != 46,
        decreases epos - dotr,
    {
        dotr = dotr + 1;
    }
    let ghost m = rest@.take(epos as int);
    proof {
        if dotr < epos {
            lemma_scan_to(m, 0, 46, dotr as int);
        } else {
            lemma_scan_to(m, 0, 46, epos as int);
        }
        assert(scan_to(m, 0, 46) == dotr as int);
    }
    let ghost int_digits = rest@.subrange(0, dotr as int);
    let ghost frac_digits = if dotr < epos {
        rest@.subrange(dotr + 1, epos as int)
    } else {
        Seq::<u8>::empty()
    };
    proof {
        assert(m.take(dotr as int) =~= int_digits);
        if (dotr as int) < m.len() {
            assert(m.skip(dotr + 1) =~= frac_digits);
        }
    }
    // Check that the mantissa is digits, with at least one of them.
    let fr_from: usize = if dotr < epos {
        dotr + 1
    } else {
        epos
    };
    let int_ok: bool = check_digits(rest, 0, dotr);
    let frac_ok: bool = check_digits(rest, fr_from, epos);
    proof {
        assert(rest@.subrange(0, dotr as int) == int_digits);
        assert(rest@.subrange(fr_from as int, epos as int) =~= frac_digits);
    }
    let digit_count: usize = dotr + (epos - fr_from);
    if !(int_ok && frac_ok && digit_count > 0) {
        proof {
            assert(!(all_digits(int_digits) && all_digits(frac_digits) && int_digits.len()
                + frac_digits.len() > 0));
        }
        return None;
    }
    if epos == n {
        return Some(number_value_exec(rest, dotr, fr_from, epos, 0, neg));
    }
    match parse_exp(rest, epos) {
        Some(e) => Some(number_value_exec(rest, dotr, fr_from, epos, e, neg)),
        None => None,
    }
}

/// Parse a float out of the bytes of a field, as `spec_parse_float` says.
pub fn parse_float_bytes(s: &Vec<u8>) -> (r: Option<FloatValue>)
    ensures
        r == spec_parse_float(s@),
{
    // Strip the sign, copying the rest so later work is over one buffer.
    let mut neg: bool = false;
    let mut st: usize = 0;
    if s.len() > 0 && s[0] == 45 {
        neg = true;
        st = 1;
    } else if s.len() > 0 && s[0] == 43 {
        st = 1;
    }
    let mut rest: Vec<u8> = Vec::new();
    let mut ci: usize = st;
    while ci < s.len()
        invariant
            st <= ci <= s@.len(),
            rest@ =~= s@.subrange(st as int, ci as int),
        decreases s@.len() - ci,
    {
        rest.push(s[ci]);
        proof {
            assert(rest@ =~= s@.subrange(st as int, ci + 1));
        }
        ci = ci + 1;
    }
    proof {
        assert(rest@ =~= s@.skip(st as int));
        assert(split_sign(s@) == (neg, rest@));
    }
    match match_special(&rest, neg) {
        Some(v) => Some(v),
        None => parse_number(&rest, neg),
    }
}

} // verus!
