//! Character-level helpers shared by the formatting and path routines.

use vstd::prelude::*;

verus! {

/// `String::push` appends the given character to the end of the string.
pub assume_specification[ String::push ](s: &mut String, ch: char)
    ensures
        final(s)@ == old(s)@.push(ch),
;

/// `str == str` holds exactly when both slices hold the same characters.
pub assume_specification[ <str as PartialEq>::eq ](a: &str, b: &str) -> (r: bool)
    ensures
        r == (a@ == b@),
;

/// Whether two string slices hold the same characters.
pub fn same_text(a: &str, b: &str) -> (r: bool)
    ensures
        r == (a@ == b@),
{
    *a == *b
}

/// The character that stands for the decimal or hexadecimal digit `d`.
pub open spec fn digit_char(d: nat) -> char {
    if d == 0 {
        '0'
    } else if d == 1 {
        '1'
    } else if d == 2 {
        '2'
    } else if d == 3 {
        '3'
    } else if d == 4 {
        '4'
    } else if d == 5 {
        '5'
    } else if d == 6 {
        '6'
    } else if d == 7 {
        '7'
    } else if d == 8 {
        '8'
    } else if d == 9 {
        '9'
    } else if d == 10 {
        'a'
    } else if d == 11 {
        'b'
    } else if d == 12 {
        'c'
    } else if d == 13 {
        'd'
    } else if d == 14 {
        'e'
    } else {
        'f'
    }
}

/// The digits of `n` in the given base, most significant first, without
/// leading zeros (`0` itself is one digit).
pub open spec fn digits(n: nat, base: nat) -> Seq<char>
    recommends
        2 <= base <= 16,
    decreases n,
{
    if n < base || base < 2 {
        seq![digit_char(n)]
    } else {
        proof {
            assert(n / base < n) by (nonlinear_arith)
                requires
                    2 <= base <= n,
            ;
        }
        digits(n / base, base).push(digit_char(n % base))
    }
}

/// The digit character for a value below sixteen.
pub fn digit_of(d: u8) -> (c: char)
    requires
        d < 16,
    ensures
        c == digit_char(d as nat),
{
    if d == 0 {
        '0'
    } else if d == 1 {
        '1'
    } else if d == 2 {
        '2'
    } else if d == 3 {
        '3'
    } else if d == 4 {
        '4'
    } else if d == 5 {
        '5'
    } else if d == 6 {
        '6'
    } else if d == 7 {
        '7'
    } else if d == 8 {
        '8'
    } else if d == 9 {
        '9'
    } else if d == 10 {
        'a'
    } else if d == 11 {
        'b'
    } else if d == 12 {
        'c'
    } else if d == 13 {
        'd'
    } else if d == 14 {
        'e'
    } else {
        'f'
    }
}

/// Appends the digits of `n` in base `base` to `out`.
pub fn push_digits(out: &mut String, n: u64, base: u8)
    requires
        2 <= base <= 16,
    ensures
        final(out)@ == old(out)@ + digits(n as nat, base as nat),
    decreases n,
{
    let b: u64 = base as u64;
    if n < b {
        out.push(digit_of(n as u8));
    } else {
        assert(n / b < n) by (nonlinear_arith)
            requires
                2 <= b <= n,
        ;
        push_digits(out, n / b, base);
        out.push(digit_of((n % b) as u8));
    }
}

/// No digit is a colon, and different digits are written differently.
pub proof fn lemma_digit_chars(a: nat, b: nat)
    requires
        a < 16,
        b < 16,
    ensures
        digit_char(a) != ':',
        digit_char(a) == digit_char(b) ==> a == b,
{
}

/// A number below the base is written with one digit, any other with more.
pub proof fn lemma_digits_len(n: nat, base: nat)
    requires
        2 <= base <= 16,
    ensures
        digits(n, base).len() >= 1,
        digits(n, base).len() == 1 <==> n < base,
    decreases n,
{
    if n >= base {
        assert(n / base < n) by (nonlinear_arith)
            requires
                2 <= base <= n,
        ;
        lemma_digits_len(n / base, base);
    }
}

/// No colon occurs among the digits of a number.
pub proof fn lemma_digits_no_colon(n: nat, base: nat)
    requires
        2 <= base <= 16,
    ensures
        forall|i: int| 0 <= i < digits(n, base).len() ==> digits(n, base)[i] != ':',
    decreases n,
{
    if n >= base {
        assert(n / base < n) by (nonlinear_arith)
            requires
                2 <= base <= n,
        ;
        lemma_digits_no_colon(n / base, base);
        assert(n % base < base) by (nonlinear_arith)
            requires
                base > 0,
        ;
        lemma_digit_chars(n % base, 0);
        let head = digits(n / base, base);
        assert forall|i: int| 0 <= i < digits(n, base).len() implies digits(n, base)[i]
            != ':' by {
            if i < head.len() {
                assert(digits(n, base)[i] == head[i]);
            }
        }
    } else {
        lemma_digit_chars(n, 0);
    }
}

/// Different numbers are written differently.
pub proof fn lemma_digits_injective(n: nat, m: nat, base: nat)
    requires
        2 <= base <= 16,
        digits(n, base) == digits(m, base),
    ensures
        n == m,
    decreases n,
{
    lemma_digits_len(n, base);
    lemma_digits_len(m, base);
    if n < base {
        assert(m < base);
        lemma_digit_chars(n, m);
        assert(digits(n, base)[0] == digit_char(n));
        assert(digits(m, base)[0] == digit_char(m));
    } else {
        assert(m >= base);
        let dn = digits(n / base, base);
        let dm = digits(m / base, base);
        assert(n % base < base && m % base < base) by (nonlinear_arith)
            requires
                base > 0,
        ;
        assert(digits(n, base) == dn.push(digit_char(n % base)));
        assert(digits(m, base) == dm.push(digit_char(m % base)));
        assert(dn.push(digit_char(n % base)).drop_last() =~= dn);
        assert(dm.push(digit_char(m % base)).drop_last() =~= dm);
        assert(dn.push(digit_char(n % base)).last() == digit_char(n % base));
        assert(dm.push(digit_char(m % base)).last() == digit_char(m % base));
        assert(dn == dm);
        lemma_digit_chars(n % base, m % base);
        assert(n / base < n) by (nonlinear_arith)
            requires
                2 <= base <= n,
        ;
        lemma_digits_injective(n / base, m / base, base);
        assert(n == m) by (nonlinear_arith)
            requires
                n / base == m / base,
                n % base == m % base,
                base > 0,
        ;
    }
}

/// Two texts with one colon each, after which and before which no colon
/// occurs, are equal only if their parts are.
pub proof fn lemma_split_at_colon(a: Seq<char>, x: Seq<char>, b: Seq<char>, y: Seq<char>)
    requires
        a + seq![':'] + x == b + seq![':'] + y,
        forall|i: int| 0 <= i < a.len() ==> a[i] != ':',
        forall|i: int| 0 <= i < b.len() ==> b[i] != ':',
    ensures
        a == b,
        x == y,
{
    let left = a + seq![':'] + x;
    let right = b + seq![':'] + y;
    assert(left[a.len() as int] == ':');
    assert(right[b.len() as int] == ':');
    if a.len() < b.len() {
        assert(right[a.len() as int] == b[a.len() as int]);
        assert(false);
    }
    if b.len() < a.len() {
        assert(left[b.len() as int] == a[b.len() as int]);
        assert(false);
    }
    assert(a =~= b) by {
        assert forall|i: int| 0 <= i < a.len() implies a[i] == b[i] by {
            assert(left[i] == a[i]);
            assert(right[i] == b[i]);
        }
    }
    assert(left.len() == a.len() + 1 + x.len());
    assert(right.len() == b.len() + 1 + y.len());
    assert(x.len() == y.len());
    assert(x =~= y) by {
        assert forall|i: int| 0 <= i < x.len() implies x[i] == y[i] by {
            assert(left[a.len() + 1 + i] == x[i]);
            assert(right[b.len() + 1 + i] == y[i]);
        }
    }
}

} // verus!
