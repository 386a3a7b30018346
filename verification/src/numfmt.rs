//! Decimal text for the integers and fixed-point values a point can carry.

use vstd::prelude::*;

verus! {

/// The digit character for `d` in `0 ..= 9`.
pub open spec fn digit_char(d: int) -> char {
    if d == 0 {
        '0'
    } else if d == 1 {
        '1'
    } else if d == 2 {
        '2'
    } else if d == 3 {
        '3'
    } else if d == 4 {
        '4'
    } else if d == 5 {
        '5'
    } else if d == 6 {
        '6'
    } else if d == 7 {
        '7'
    } else if d == 8 {
        '8'
    } else {
        '9'
    }
}

/// The decimal digits of `n`, most significant first, no leading zeros
/// (a single `0` for zero).
pub open spec fn spec_udec(n: nat) -> Seq<char>
    decreases n,
{
    if n < 10 {
        seq![digit_char(n as int)]
    } else {
        spec_udec(n / 10).push(digit_char((n % 10) as int))
    }
}

/// The decimal digits of `n`, with a leading `-` when `n` is negative.
pub open spec fn spec_idec(n: int) -> Seq<char> {
    if n < 0 {
        seq!['-'] + spec_udec((-n) as nat)
    } else {
        spec_udec(n as nat)
    }
}

/// Exactly `width` decimal digits of `n mod 10^width`, zero padded.
pub open spec fn spec_fixed_digits(n: nat, width: nat) -> Seq<char>
    decreases width,
{
    if width == 0 {
        Seq::empty()
    } else {
        spec_fixed_digits(n / 10, (width - 1) as nat).push(digit_char((n % 10) as int))
    }
}

/// `s` with every trailing `0` removed.
pub open spec fn spec_trim_zeros(s: Seq<char>) -> Seq<char>
    decreases s.len(),
{
    if s.len() == 0 {
        s
    } else if s.last() == '0' {
        spec_trim_zeros(s.drop_last())
    } else {
        s
    }
}

fn digit_char_exec(d: u128) -> (c: char)
    requires
        d < 10,
    ensures
        c == digit_char(d as int),
{
    if d == 0 {
        '0'
    } else if d == 1 {
        '1'
    } else if d == 2 {
        '2'
    } else if d == 3 {
        '3'
    } else if d == 4 {
        '4'
    } else if d == 5 {
        '5'
    } else if d == 6 {
        '6'
    } else if d == 7 {
        '7'
    } else if d == 8 {
        '8'
    } else {
        '9'
    }
}

fn reverse_chars(rev: &Vec<char>) -> (out: Vec<char>)
    ensures
        out@ == rev@.reverse(),
{
    let mut out: Vec<char> = Vec::new();
    let mut i: usize = rev.len();
    while i > 0
        invariant
            i <= rev.len(),
            out@.len() == rev@.len() - i,
            forall|j: int| 0 <= j < out@.len() ==> out@[j] == rev@[rev@.len() - 1 - j],
        decreases i,
    {
        i = i - 1;
        let c = rev[i];
        out.push(c);
    }
    assert(out@ =~= rev@.reverse());
    out
}

/// The decimal digits of `n`, most significant first.
pub fn u128_chars(n: u128) -> (out: Vec<char>)
    ensures
        out@ == spec_udec(n as nat),
{
    let mut rev: Vec<char> = Vec::new();
    let mut m: u128 = n;
    loop
        invariant_except_break
            spec_udec(n as nat) == spec_udec(m as nat) + rev@.reverse(),
        ensures
            spec_udec(n as nat) == rev@.reverse(),
        decreases m,
    {
        let d = m % 10;
        let ghost rev_old = rev@;
        rev.push(digit_char_exec(d));
        assert(rev@.reverse() =~= seq![digit_char(d as int)] + rev_old.reverse());
        if m < 10 {
            assert(spec_udec(m as nat) == seq![digit_char(d as int)]);
            assert(spec_udec(n as nat) =~= rev@.reverse());
            break;
        }
        assert(spec_udec(m as nat) == spec_udec((m as nat) / 10).push(digit_char((m % 10) as int)));
        assert(spec_udec((m as nat) / 10).push(digit_char(d as int)) =~= spec_udec(
            (m as nat) / 10,
        ) + seq![digit_char(d as int)]);
        assert(spec_udec(n as nat) =~= spec_udec((m as nat) / 10) + rev@.reverse());
        m = m / 10;
    }
    reverse_chars(&rev)
}

/// The decimal digits of `n`, most significant first.
pub fn u64_chars(n: u64) -> (out: Vec<char>)
    ensures
        out@ == spec_udec(n as nat),
{
    u128_chars(n as u128)
}

/// The decimal digits of `n`, `-` first when `n` is negative.
pub fn i64_chars(n: i64) -> (out: Vec<char>)
    ensures
        out@ == spec_idec(n as int),
{
    i128_chars(n as i128)
}

/// The decimal digits of `n`, `-` first when `n` is negative.
pub fn i128_chars(n: i128) -> (out: Vec<char>)
    requires
        n > i128::MIN,
    ensures
        out@ == spec_idec(n as int),
{
    if n < 0 {
        let mag = (-n) as u128;
        let digits = u128_chars(mag);
        let mut out: Vec<char> = Vec::new();
        out.push('-');
        let mut k: usize = 0;
        while k < digits.len()
            invariant
                k <= digits@.len(),
                out@ == seq!['-'] + digits@.take(k as int),
            decreases digits@.len() - k,
        {
            let c = digits[k];
            out.push(c);
            assert(digits@.take(k + 1 as int) =~= digits@.take(k as int).push(c));
            assert(out@ =~= seq!['-'] + digits@.take(k + 1 as int));
            k = k + 1;
        }
        assert(digits@.take(digits@.len() as int) =~= digits@);
        out
    } else {
        u128_chars(n as u128)
    }
}

/// Exactly `width` digits of `n mod 10^width`, zero padded.
pub fn fixed_digits(n: u64, width: usize) -> (out: Vec<char>)
    ensures
        out@ == spec_fixed_digits(n as nat, width as nat),
{
    let mut rev: Vec<char> = Vec::new();
    let mut m: u64 = n;
    let mut w: usize = width;
    while w > 0
        invariant
            spec_fixed_digits(n as nat, width as nat) == spec_fixed_digits(m as nat, w as nat)
                + rev@.reverse(),
        decreases w,
    {
        let d = (m % 10) as u128;
        let ghost rev_old = rev@;
        rev.push(digit_char_exec(d));
        assert(rev@.reverse() =~= seq![digit_char(d as int)] + rev_old.reverse());
        assert(spec_fixed_digits(m as nat, w as nat) == spec_fixed_digits(
            (m as nat) / 10,
            (w - 1) as nat,
        ).push(digit_char((m % 10) as int)));
        assert(spec_fixed_digits((m as nat) / 10, (w - 1) as nat).push(digit_char(d as int))
            =~= spec_fixed_digits((m as nat) / 10, (w - 1) as nat) + seq![digit_char(d as int)]);
        assert(spec_fixed_digits(n as nat, width as nat) =~= spec_fixed_digits(
            (m as nat) / 10,
            (w - 1) as nat,
        ) + rev@.reverse());
        m = m / 10;
        w = w - 1;
    }
    assert(spec_fixed_digits(m as nat, 0) =~= Seq::<char>::empty());
    assert(spec_fixed_digits(n as nat, width as nat) =~= rev@.reverse());
    reverse_chars(&rev)
}

proof fn lemma_digit_char_zero(d: int)
    requires
        0 <= d < 10,
    ensures
        (digit_char(d) == '0') <==> (d == 0),
{
}

/// Trimming the zero-padded digits of a number that ends in `0` is the
/// same as trimming one digit fewer of the number with that `0` removed.
proof fn lemma_trim_step(n: nat, width: nat)
    requires
        width > 0,
        n % 10 == 0,
    ensures
        spec_trim_zeros(spec_fixed_digits(n, width)) == spec_trim_zeros(
            spec_fixed_digits(n / 10, (width - 1) as nat),
        ),
{
    let s = spec_fixed_digits(n, width);
    assert(s == spec_fixed_digits(n / 10, (width - 1) as nat).push(digit_char((n % 10) as int)));
    assert(s.last() == '0');
    assert(s.drop_last() =~= spec_fixed_digits(n / 10, (width - 1) as nat));
}

/// A number whose last digit is not `0` loses nothing to trimming.
proof fn lemma_trim_done(n: nat, width: nat)
    requires
        width > 0,
        n % 10 != 0,
    ensures
        spec_trim_zeros(spec_fixed_digits(n, width)) == spec_fixed_digits(n, width),
{
    let s = spec_fixed_digits(n, width);
    lemma_digit_char_zero((n % 10) as int);
    assert(s.last() == digit_char((n % 10) as int));
}

/// The fractional digits of `frac` billionths: nine zero-padded digits
/// with the trailing zeros removed; empty when `frac` is zero.
pub open spec fn spec_frac_chars(frac: nat) -> Seq<char> {
    spec_trim_zeros(spec_fixed_digits(frac, 9))
}

/// The last `width` digits of `n`, zero padded, trailing zeros removed.
pub fn trimmed_digits(n: u64, width: usize) -> (out: Vec<char>)
    ensures
        out@ == spec_trim_zeros(spec_fixed_digits(n as nat, width as nat)),
{
    let mut f: u64 = n;
    let mut w: usize = width;
    while w > 0 && f % 10 == 0
        invariant
            w <= width,
            spec_trim_zeros(spec_fixed_digits(n as nat, width as nat)) == spec_trim_zeros(
                spec_fixed_digits(f as nat, w as nat),
            ),
        decreases w,
    {
        proof {
            lemma_trim_step(f as nat, w as nat);
        }
        f = f / 10;
        w = w - 1;
    }
    if w == 0 {
        assert(spec_fixed_digits(f as nat, 0) =~= Seq::<char>::empty());
        assert(spec_trim_zeros(Seq::<char>::empty()) =~= Seq::<char>::empty());
        Vec::new()
    } else {
        proof {
            lemma_trim_done(f as nat, w as nat);
        }
        fixed_digits(f, w)
    }
}

/// The fractional digits of `frac` billionths, trailing zeros removed.
pub fn frac_chars(frac: u64) -> (out: Vec<char>)
    ensures
        out@ == spec_frac_chars(frac as nat),
{
    trimmed_digits(frac, 9)
}

} // verus!
