//! Field parsing and classification over raw bytes.
use crate::datatypes::DataType;
use crate::floatval::{
    all_digits, check_digits, eq_word_ci, is_digit, lower_byte, lower_byte_exec, scan_to,
    split_sign,
};
use vstd::prelude::*;

verus! {

/// The value of a digit string, highest digit first.
pub open spec fn digits_val(s: Seq<u8>) -> int
    decreases s.len(),
{
    if s.len() == 0 {
        0
    } else {
        digits_val(s.drop_last()) * 10 + (s.last() - 48)
    }
}

pub open spec fn pow10(n: nat) -> int
    decreases n,
{
    if n == 0 {
        1
    } else {
        10 * pow10((n - 1) as nat)
    }
}

/// What parsing an integer out of `s` yields when the type's range is
/// `[lo, hi]`: an optional sign, then digits, whose value must fit.
pub open spec fn spec_parse_int(s: Seq<u8>, lo: int, hi: int) -> Option<int> {
    let (neg, rest) = split_sign(s);
    if rest.len() > 0 && all_digits(rest) {
        let v = if neg {
            -digits_val(rest)
        } else {
            digits_val(rest)
        };
        if lo <= v <= hi {
            Some(v)
        } else {
            None
        }
    } else {
        None
    }
}

/// What parsing `true`/`false` out of the lower-cased text yields.
pub open spec fn spec_parse_bool(s: Seq<u8>) -> Option<bool> {
    if eq_word_ci(s, seq![116u8, 114u8, 117u8, 101u8]) {
        Some(true)
    } else if eq_word_ci(s, seq![102u8, 97u8, 108u8, 115u8, 101u8]) {
        Some(false)
    } else {
        None
    }
}

/// An optionally negative run of digits.
pub open spec fn is_int_like(s: Seq<u8>) -> bool {
    let st: int = if s.len() > 0 && s[0] == 45 {
        1
    } else {
        0
    };
    s.len() > st && all_digits(s.skip(st))
}

/// An optionally negative `digits.digits` form, both sides non-empty.
pub open spec fn is_decimal_like(s: Seq<u8>) -> bool {
    let st: int = if s.len() > 0 && s[0] == 45 {
        1
    } else {
        0
    };
    let r = s.skip(st);
    let dot = scan_to(r, 0, 46);
    &&& dot >= 1
    &&& dot + 1 < r.len()
    &&& all_digits(r.take(dot))
    &&& all_digits(r.skip(dot + 1))
}

/// Whether the text is `true` or `false`, in any casing.
pub open spec fn is_bool_like(s: Seq<u8>) -> bool {
    eq_word_ci(s, seq![116u8, 114u8, 117u8, 101u8]) || eq_word_ci(
        s,
        seq![102u8, 97u8, 108u8, 115u8, 101u8],
    )
}

/// The type guessed for one raw field: a field still carrying an opening
/// quote is text; then boolean, decimal and integer patterns are tried in
/// that order; anything else is text.
pub open spec fn spec_infer_field(s: Seq<u8>) -> DataType {
    if s.len() > 0 && s[0] == 34 {
        DataType::Utf8
    } else if is_bool_like(s) {
        DataType::Boolean
    } else if is_decimal_like(s) {
        DataType::Float64
    } else if is_int_like(s) {
        DataType::Int64
    } else {
        DataType::Utf8
    }
}

proof fn lemma_digits_val_zeros(s: Seq<u8>)
    requires
        forall|k: int| 0 <= k < s.len() ==> s[k] == 48,
    ensures
        digits_val(s) == 0,
    decreases s.len(),
{
    if s.len() > 0 {
        lemma_digits_val_zeros(s.drop_last());
    }
}

proof fn lemma_digits_val_skip_zeros(s: Seq<u8>, z: int)
    requires
        0 <= z <= s.len(),
        forall|k: int| 0 <= k < z ==> s[k] == 48,
    ensures
        digits_val(s) == digits_val(s.skip(z)),
    decreases s.len(),
{
    if s.len() == 0 || z == 0 {
        assert(s.skip(0) =~= s);
    } else if z == s.len() {
        lemma_digits_val_zeros(s);
        assert(s.skip(z) =~= Seq::<u8>::empty());
    } else {
        assert(s.drop_last().skip(z) =~= s.skip(z).drop_last());
        lemma_digits_val_skip_zeros(s.drop_last(), z);
        assert(s.skip(z).last() == s.last());
    }
}

proof fn lemma_digits_val_upper(s: Seq<u8>)
    requires
        all_digits(s),
    ensures
        0 <= digits_val(s) < pow10(s.len()),
    decreases s.len(),
{
    if s.len() > 0 {
        assert(all_digits(s.drop_last())) by {
            assert(forall|k: int|
                0 <= k < s.len() - 1 ==> #[trigger] s.drop_last()[k] == s[k]);
        }
        lemma_digits_val_upper(s.drop_last());
        assert(is_digit(s.last()));
    }
}

proof fn lemma_digits_val_lower(s: Seq<u8>)
    requires
        all_digits(s),
        s.len() > 0,
        s[0] != 48,
    ensures
        digits_val(s) >= pow10((s.len() - 1) as nat),
    decreases s.len(),
{
    if s.len() == 1 {
        assert(digits_val(s.drop_last()) == 0);
    } else {
        assert(all_digits(s.drop_last())) by {
            assert(forall|k: int|
                0 <= k < s.len() - 1 ==> #[trigger] s.drop_last()[k] == s[k]);
        }
        lemma_digits_val_lower(s.drop_last());
        assert(is_digit(s.last()));
    }
}

proof fn lemma_pow10_19()
    ensures
        pow10(19) == 10000000000000000000,
        pow10(20) == 100000000000000000000,
{
    reveal_with_fuel(pow10, 21);
}

/// Fold the digits of `s[from..to]` into their value; the value stays
/// below `pow10(to - from)`.
fn digits_val_exec(s: &Vec<u8>, from: usize, to: usize) -> (r: u128)
    requires
        from <= to <= s@.len(),
        to - from <= 19,
        all_digits(s@.subrange(from as int, to as int)),
    ensures
        r == digits_val(s@.subrange(from as int, to as int)),
        r < 100000000000000000000u128,
{
    let ghost whole = s@.subrange(from as int, to as int);
    proof {
        lemma_pow10_19();
    }
    let mut acc: u128 = 0;
    let mut i: usize = from;
    while i < to
        invariant
            from <= i <= to <= s@.len(),
            to - from <= 19,
            all_digits(s@.subrange(from as int, to as int)),
            whole == s@.subrange(from as int, to as int),
            acc == digits_val(s@.subrange(from as int, i as int)),
            acc < pow10((i - from) as nat),
            pow10((i - from) as nat) <= pow10(19),
            pow10(19) == 10000000000000000000,
        decreases to - i,
    {
        let ghost pre = s@.subrange(from as int, i as int);
        let ghost cur = s@.subrange(from as int, i + 1);
        proof {
            assert(cur.drop_last() =~= pre);
            assert(cur.last() == s@[i as int]);
            assert(is_digit(whole[i - from]));
            assert(whole[i - from] == s@[i as int]);
            lemma_pow10_mono((i + 1 - from) as nat, 19);
        }
        let d: u8 = s[i];
        acc = acc * 10 + ((d - 48) as u128);
        i = i + 1;
    }
    acc
}

proof fn lemma_pow10_mono(a: nat, b: nat)
    requires
        a <= b,
    ensures
        pow10(a) <= pow10(b),
        pow10(a) >= 1,
    decreases b,
{
    if a < b {
        lemma_pow10_mono(a, (b - 1) as nat);
    } else if a == b && b > 0 {
        lemma_pow10_mono((a - 1) as nat, (b - 1) as nat);
    }
}

/// Parse an integer whose type ranges over `[lo, hi]`, as
/// `spec_parse_int` says.
pub fn parse_int_bytes(s: &Vec<u8>, lo: i64, hi: i64) -> (r: Option<i64>)
    requires
        lo <= 0 <= hi,
    ensures
        match r {
            Some(v) => spec_parse_int(s@, lo as int, hi as int) == Some(v as int) && lo <= v <= hi,
            None => spec_parse_int(s@, lo as int, hi as int) is None,
        },
{
    let mut neg: bool = false;
    let mut st: usize = 0;
    if s.len() > 0 && s[0] == 45 {
        neg = true;
        st = 1;
    } else if s.len() > 0 && s[0] == 43 {
        st = 1;
    }
    let ghost rest = s@.skip(st as int);
    proof {
        assert(rest =~= s@.subrange(st as int, s@.len() as int));
        assert(split_sign(s@) == (neg, rest));
    }
    let n: usize = s.len();
    if st >= n {
        return None;
    }
    if !check_digits(s, st, n) {
        return None;
    }
    // Skip leading zeros; what remains decides the magnitude.
    let mut z: usize = st;
    while z < n && s[z] == 48
        invariant
            st <= z <= n,
            n == s@.len(),
            forall|k: int| st <= k < z ==> s@[k] == 48,
        decreases n - z,
    {
        z = z + 1;
    }
    proof {
        assert(all_digits(rest));
        lemma_digits_val_skip_zeros(rest, z - st);
        assert(rest.skip(z - st) =~= s@.subrange(z as int, n as int));
        assert(all_digits(s@.subrange(z as int, n as int))) by {
            assert(forall|k: int|
                0 <= k < n - z ==> #[trigger] s@.subrange(z as int, n as int)[k] == rest[k + z
                    - st]);
        }
    }
    if n - z > 19 {
        proof {
            lemma_digits_val_lower(s@.subrange(z as int, n as int));
            lemma_pow10_mono(19, (n - z - 1) as nat);
            lemma_pow10_19();
        }
        return None;
    }
    let v: u128 = digits_val_exec(s, z, n);
    proof {
        assert(digits_val(rest) == v);
    }
    if neg {
        if v > 9223372036854775808u128 {
            return None;
        }
        let sv: i64 = if v == 9223372036854775808u128 {
            -9223372036854775807i64 - 1
        } else {
            -(v as i64)
        };
        if sv < lo {
            return None;
        }
        Some(sv)
    } else {
        if v > 9223372036854775807u128 {
            return None;
        }
        let sv: i64 = v as i64;
        if sv > hi {
            return None;
        }
        Some(sv)
    }
}

/// Parse `true` or `false` in any casing, as `spec_parse_bool` says.
pub fn parse_bool_bytes(s: &Vec<u8>) -> (r: Option<bool>)
    ensures
        r == spec_parse_bool(s@),
{
    let n: usize = s.len();
    if n == 4 && lower_byte_exec(s[0]) == 116 && lower_byte_exec(s[1]) == 114 && lower_byte_exec(
        s[2],
    ) == 117 && lower_byte_exec(s[3]) == 101 {
        proof {
            assert(eq_word_ci(s@, seq![116u8, 114u8, 117u8, 101u8]));
        }
        return Some(true);
    }
    if n == 5 && lower_byte_exec(s[0]) == 102 && lower_byte_exec(s[1]) == 97 && lower_byte_exec(
        s[2],
    ) == 108 && lower_byte_exec(s[3]) == 115 && lower_byte_exec(s[4]) == 101 {
        proof {
            assert(eq_word_ci(s@, seq![102u8, 97u8, 108u8, 115u8, 101u8]));
        }
        return Some(false);
    }
    proof {
        if eq_word_ci(s@, seq![116u8, 114u8, 117u8, 101u8]) {
            assert(lower_byte(s@[0]) == 116 && lower_byte(s@[1]) == 114 && lower_byte(s@[2]) == 117
                && lower_byte(s@[3]) == 101);
        }
        if eq_word_ci(s@, seq![102u8, 97u8, 108u8, 115u8, 101u8]) {
            assert(lower_byte(s@[0]) == 102 && lower_byte(s@[1]) == 97 && lower_byte(s@[2]) == 108
                && lower_byte(s@[3]) == 115 && lower_byte(s@[4]) == 101);
        }
    }
    None
}

/// Infer the data type of a record's field, as `spec_infer_field` says.
pub fn infer_field_schema(s: &Vec<u8>) -> (r: DataType)
    ensures
        r == spec_infer_field(s@),
{
    let n: usize = s.len();
    if n > 0 && s[0] == 34 {
        return DataType::Utf8;
    }
    match parse_bool_bytes(s) {
        Some(_) => {
            return DataType::Boolean;
        },
        None => {},
    }
    let mut st: usize = 0;
    if n > 0 && s[0] == 45 {
        st = 1;
    }
    let ghost r0 = s@.skip(st as int);
    // Decimal form: digits, a point, digits.
    let mut dotr: usize = st;
    while dotr < n && s[dotr] != 46
        invariant
            st <= dotr <= n,
            n == s@.len(),
            forall|k: int| st <= k < dotr ==> s@[k] != 46,
        decreases n - dotr,
    {
        dotr = dotr + 1;
    }
    proof {
        assert(forall|k: int| 0 <= k < dotr - st ==> #[trigger] r0[k] == s@[k + st]);
        if dotr < n {
            crate::floatval::lemma_scan_to(r0, 0, 46, dotr - st);
        } else {
            crate::floatval::lemma_scan_to(r0, 0, 46, n - st);
        }
    }
    let is_dec: bool = if dotr > st && dotr < n && dotr + 1 < n {
        let a: bool = check_digits(s, st, dotr);
        let b: bool = check_digits(s, dotr + 1, n);
        proof {
            assert(r0.take(dotr - st) =~= s@.subrange(st as int, dotr as int));
            assert(r0.skip(dotr - st + 1) =~= s@.subrange(dotr + 1, n as int));
        }
        a && b
    } else {
        false
    };
    proof {
        if !(dotr > st && dotr < n && dotr + 1 < n) {
            assert(!is_decimal_like(s@));
        }
    }
    if is_dec {
        return DataType::Float64;
    }
    // Integer form: digits only.
    let is_int: bool = if n > st {
        let a: bool = check_digits(s, st, n);
        proof {
            assert(r0 =~= s@.subrange(st as int, n as int));
        }
        a
    } else {
        false
    };
    if is_int {
        return DataType::Int64;
    }
    DataType::Utf8
}

} // verus!
