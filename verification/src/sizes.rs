//! Size specifications: resolving textual size specifications such as
//! `"10k"`, `"5m"`, `"2g"` or `"50%"` to byte counts, and rendering byte
//! counts back in human-readable form.
use vstd::prelude::*;

verus! {

/// One kibibyte in bytes.
pub const KIB: u64 = 1024;
/// One mebibyte in bytes.
pub const MIB: u64 = 1048576;
/// One gibibyte in bytes.
pub const GIB: u64 = 1073741824;

/// An ASCII decimal digit.
pub open spec fn is_digit_char(c: char) -> bool {
    48 <= c as u32 <= 57
}

/// Numeric value of an ASCII decimal digit.
pub open spec fn digit_val(c: char) -> int {
    c as u32 - 48
}

/// A unit suffix accepted in a size specification.
pub open spec fn is_unit_char(c: char) -> bool {
    c == 'k' || c == 'm' || c == 'g' || c == '%'
}

/// Length of the longest prefix of `s` consisting of decimal digits.
pub open spec fn digit_count(s: Seq<char>) -> int
    decreases s.len(),
{
    if s.len() > 0 && is_digit_char(s[0]) {
        1 + digit_count(s.drop_first())
    } else {
        0
    }
}

/// Value of a sequence of decimal digits, most significant first.
pub open spec fn digits_value(d: Seq<char>) -> int
    decreases d.len(),
{
    if d.len() == 0 {
        0
    } else {
        digits_value(d.drop_last()) * 10 + digit_val(d.last())
    }
}

/// A size specification is a run of digits followed by at most one unit
/// suffix: `<digits><unit>?` with unit one of `k`, `m`, `g`, `%`.
pub open spec fn well_formed_size(s: Seq<char>) -> bool {
    let n = digit_count(s);
    n == s.len() || (n == s.len() - 1 && is_unit_char(s[s.len() - 1]))
}

/// The magnitude a size specification carries: the value of its digit
/// prefix, except that a value too large for a machine word counts as
/// unparseable and so resolves to zero.
pub open spec fn magnitude_of(s: Seq<char>) -> int {
    let m = digits_value(s.take(digit_count(s)));
    if m > u64::MAX {
        0
    } else {
        m
    }
}

/// What a size specification resolves to, given total system memory:
/// `None` for input that does not match the grammar (the caller then
/// substitutes its default); otherwise the magnitude scaled by the unit.
/// A `%` suffix divides total memory by the magnitude, so `50%` is one
/// fiftieth of memory, not half. A zero (or unparseable) magnitude
/// resolves to zero whatever the unit.
pub open spec fn resolve_spec(s: Seq<char>, memory_size: u64) -> Option<int> {
    if !well_formed_size(s) {
        None
    } else {
        let mag = magnitude_of(s);
        if mag == 0 {
            Some(0)
        } else if digit_count(s) == s.len() {
            Some(mag)
        } else if s[s.len() - 1] == 'k' {
            Some(mag * (KIB as int))
        } else if s[s.len() - 1] == 'm' {
            Some(mag * (MIB as int))
        } else if s[s.len() - 1] == 'g' {
            Some(mag * (GIB as int))
        } else {
            Some(memory_size as int / mag)
        }
    }
}

proof fn lemma_digit_count_from_prefix(s: Seq<char>, n: int)
    requires
        0 <= n <= s.len(),
        forall|k: int| 0 <= k < n ==> is_digit_char(s[k]),
        n == s.len() || !is_digit_char(s[n]),
    ensures
        digit_count(s) == n,
    decreases n,
{
    if n == 0 {
    } else {
        assert(is_digit_char(s[0]));
        let t = s.drop_first();
        assert(forall|k: int| 0 <= k < n - 1 ==> is_digit_char(#[trigger] t[k]) == is_digit_char(
            s[k + 1],
        ));
        lemma_digit_count_from_prefix(t, n - 1);
    }
}

proof fn lemma_digits_value_nonneg(d: Seq<char>)
    requires
        forall|k: int| 0 <= k < d.len() ==> is_digit_char(d[k]),
    ensures
        digits_value(d) >= 0,
    decreases d.len(),
{
    if d.len() > 0 {
        lemma_digits_value_nonneg(d.drop_last());
    }
}

/// Whether the character at position `i` is a decimal digit.
fn digit_at(s: &str, i: usize) -> (b: bool)
    requires
        i < s@.len(),
    ensures
        b == is_digit_char(s@[i as int]),
{
    let c = s.get_char(i);
    let u = c as u32;
    48 <= u && u <= 57
}

/// Resolves a size specification to a byte count: plain bytes without a
/// unit, kibi/mebi/gibibytes for `k`/`m`/`g`, and total memory divided by
/// the magnitude for `%`. Returns `None` when the input does not match
/// the grammar, or when the scaled result exceeds `u64::MAX`; a zero or
/// unparseably large magnitude yields `Some(0)`.
pub fn size_to_bytes(size: &str, memory_size: u64) -> (r: Option<u64>)
    ensures
        ({
            match resolve_spec(size@, memory_size) {
                Option::None => r is None,
                Option::Some(v) => if 0 <= v <= u64::MAX {
                    r == Option::<u64>::Some(v as u64)
                } else {
                    r is None
                },
            }
        }),
{
    let n_total: usize = size.unicode_len();
    let mut n: usize = 0;
    while n < n_total && digit_at(size, n)
        invariant
            0 <= n <= n_total,
            n_total == size@.len(),
            forall|k: int| 0 <= k < n ==> is_digit_char(size@[k]),
        decreases n_total - n,
    {
        n = n + 1;
    }
    proof {
        lemma_digit_count_from_prefix(size@, n as int);
    }
    // Decide well-formedness: the remainder after the digits must be empty
    // or a single unit character.
    let has_unit: bool = n < n_total && n_total - n == 1;
    if !(n == n_total || has_unit) {
        return None;
    }
    if has_unit {
        let u = size.get_char(n);
        if !(u == 'k' || u == 'm' || u == 'g' || u == '%') {
            return None;
        }
    }
    assert(well_formed_size(size@));
    // Accumulate the magnitude, tracking overflow of the digit prefix.
    let ghost digits = size@.take(n as int);
    let mut val: u64 = 0;
    let mut ovf: bool = false;
    let mut i: usize = 0;
    proof {
        lemma_digits_value_nonneg(digits);
    }
    while i < n
        invariant
            0 <= i <= n <= n_total,
            n_total == size@.len(),
            digits == size@.take(n as int),
            forall|k: int| 0 <= k < n ==> is_digit_char(size@[k]),
            !ovf ==> val == digits_value(digits.take(i as int)),
            ovf ==> digits_value(digits.take(i as int)) > u64::MAX,
        decreases n - i,
    {
        let c = size.get_char(i);
        assert(is_digit_char(size@[i as int]));
        let d: u64 = (c as u32 - 48) as u64;
        proof {
            assert(digits.take(i as int + 1).drop_last() =~= digits.take(i as int));
            assert(digits.take(i as int + 1).last() == size@[i as int]);
        }
        if ovf {
            proof {
                lemma_digits_value_nonneg(digits.take(i as int));
            }
        } else if val > u64::MAX / 10 {
            ovf = true;
        } else {
            let scaled: u64 = val * 10;
            if d > u64::MAX - scaled {
                ovf = true;
            } else {
                val = scaled + d;
            }
        }
        i = i + 1;
    }
    proof {
        assert(digits.take(n as int) =~= digits);
    }
    // `val` is now the magnitude (zero if the digit prefix overflowed).
    if ovf {
        return Some(0);
    }
    if val == 0 {
        return Some(0);
    }
    if !has_unit {
        return Some(val);
    }
    let u = size.get_char(n);
    if u == 'k' {
        if val <= u64::MAX / KIB {
            Some(val * KIB)
        } else {
            None
        }
    } else if u == 'm' {
        if val <= u64::MAX / MIB {
            Some(val * MIB)
        } else {
            None
        }
    } else if u == 'g' {
        if val <= u64::MAX / GIB {
            Some(val * GIB)
        } else {
            None
        }
    } else {
        Some(memory_size / val)
    }
}

/// The character for a single decimal digit value.
pub open spec fn digit_char(d: int) -> char {
    if d == 0 {
        '0'
    } else if d == 1 {
        '1'
    } else if d == 2 {
        '2'
    } else if d == 3 {
        '3'
    } else if d == 4 {
        '4'
    } else if d == 5 {
        '5'
    } else if d == 6 {
        '6'
    } else if d == 7 {
        '7'
    } else if d == 8 {
        '8'
    } else {
        '9'
    }
}

/// Decimal rendering of a non-negative number, most significant digit
/// first.
pub open spec fn dec_digits(n: int) -> Seq<char>
    decreases n,
{
    if n < 10 {
        seq![digit_char(n)]
    } else {
        dec_digits(n / 10) + seq![digit_char(n % 10)]
    }
}

/// Rendering of `n` bytes in the given whole unit with two (truncated)
/// decimal places.
pub open spec fn scaled_two_places(n: int, unit: int) -> Seq<char> {
    let frac = (n % unit) * 100 / unit;
    dec_digits(n / unit) + seq!['.', digit_char(frac / 10), digit_char(frac % 10)]
}

/// Human-readable size: plain bytes below one KiB, otherwise the largest
/// whole unit among KiB, MiB and GiB with two decimal places and the
/// unit's letter.
pub open spec fn human_size(n: int) -> Seq<char> {
    if n >= GIB {
        scaled_two_places(n, GIB as int) + seq!['g']
    } else if n >= MIB {
        scaled_two_places(n, MIB as int) + seq!['m']
    } else if n >= KIB {
        scaled_two_places(n, KIB as int) + seq!['k']
    } else {
        dec_digits(n)
    }
}

/// Appends the character for one digit value.
fn push_digit(out: &mut String, d: u64)
    requires
        d < 10,
    ensures
        final(out)@ == old(out)@ + seq![digit_char(d as int)],
{
    proof {
        reveal_strlit("0");
        reveal_strlit("1");
        reveal_strlit("2");
        reveal_strlit("3");
        reveal_strlit("4");
        reveal_strlit("5");
        reveal_strlit("6");
        reveal_strlit("7");
        reveal_strlit("8");
        reveal_strlit("9");
    }
    if d == 0 {
        out.append("0");
    } else if d == 1 {
        out.append("1");
    } else if d == 2 {
        out.append("2");
    } else if d == 3 {
        out.append("3");
    } else if d == 4 {
        out.append("4");
    } else if d == 5 {
        out.append("5");
    } else if d == 6 {
        out.append("6");
    } else if d == 7 {
        out.append("7");
    } else if d == 8 {
        out.append("8");
    } else {
        out.append("9");
    }
    proof {
        assert(final(out)@ =~= old(out)@ + seq![digit_char(d as int)]);
    }
}

/// Appends the decimal rendering of `n`.
fn push_dec(out: &mut String, n: u64)
    ensures
        final(out)@ == old(out)@ + dec_digits(n as int),
    decreases n,
{
    if n < 10 {
        push_digit(out, n);
    } else {
        push_dec(out, n / 10);
        push_digit(out, n % 10);
        proof {
            assert(final(out)@ =~= old(out)@ + dec_digits(n as int));
        }
    }
}

/// Appends the two-decimal-place rendering of `num` bytes in `unit`,
/// followed by the unit letter handed in.
fn push_scaled(out: &mut String, num: u64, unit: u64, letter: &str)
    requires
        KIB <= unit <= GIB,
        num >= unit,
    ensures
        final(out)@ == old(out)@ + scaled_two_places(num as int, unit as int) + letter@,
{
    let whole: u64 = num / unit;
    let rem: u64 = num % unit;
    assert(rem < unit);
    assert(rem * 100 < unit * 100) by (nonlinear_arith)
        requires
            rem < unit,
    ;
    let frac: u64 = rem * 100 / unit;
    proof {
        vstd::arithmetic::div_mod::lemma_multiply_divide_lt(rem as int * 100, unit as int, 100);
    }
    assert(frac < 100);
    push_dec(out, whole);
    proof {
        reveal_strlit(".");
    }
    out.append(".");
    push_digit(out, frac / 10);
    push_digit(out, frac % 10);
    out.append(letter);
    proof {
        assert(final(out)@ =~= old(out)@ + scaled_two_places(num as int, unit as int) + letter@);
    }
}

/// Renders a byte count in human-readable form: plain bytes, or the
/// largest whole unit among KiB, MiB and GiB with two decimal places and
/// a `k`, `m` or `g` suffix.
pub fn bytes_to_size(num: u64) -> (r: String)
    ensures
        r@ == human_size(num as int),
{
    let mut out = String::new();
    proof {
        reveal_strlit("g");
        reveal_strlit("m");
        reveal_strlit("k");
    }
    if num >= GIB {
        push_scaled(&mut out, num, GIB, "g");
        proof {
            assert(out@ =~= human_size(num as int));
        }
    } else if num >= MIB {
        push_scaled(&mut out, num, MIB, "m");
        proof {
            assert(out@ =~= human_size(num as int));
        }
    } else if num >= KIB {
        push_scaled(&mut out, num, KIB, "k");
        proof {
            assert(out@ =~= human_size(num as int));
        }
    } else {
        push_dec(&mut out, num);
        proof {
            assert(out@ =~= human_size(num as int));
        }
    }
    out
}

} // verus!
