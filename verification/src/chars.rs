//! Small executable helpers for moving between `String`, `&str` and
//! `Vec<char>`, and for rendering decimal numbers. The record codec and the
//! path rules work over `Vec<char>`, whose view is a plain `Seq<char>`.
use vstd::prelude::*;

verus! {

/// Collect the characters of a string slice into a vector.
pub fn str_chars(s: &str) -> (v: Vec<char>)
    ensures
        v@ == s@,
{
    let n = s.unicode_len();
    let mut v: Vec<char> = Vec::new();
    let mut i: usize = 0;
    while i < n
        invariant
            n == s@.len(),
            i <= n,
            v@ == s@.subrange(0, i as int),
        decreases n - i,
    {
        v.push(s.get_char(i));
        i = i + 1;
        proof {
            assert(v@ =~= s@.subrange(0, i as int));
        }
    }
    proof {
        assert(v@ =~= s@);
    }
    v
}

/// Relies on `String::push`: appends one character to the string.
#[verifier::external_body]
fn push_char(s: &mut String, c: char)
    ensures
        final(s)@ == old(s)@.push(c),
{
    s.push(c);
}

/// Build a `String` from a vector of characters.
pub fn chars_string(v: &Vec<char>) -> (s: String)
    ensures
        s@ == v@,
{
    let mut s = String::new();
    let mut i: usize = 0;
    while i < v.len()
        invariant
            i <= v@.len(),
            s@ == v@.subrange(0, i as int),
        decreases v@.len() - i,
    {
        push_char(&mut s, v[i]);
        i = i + 1;
        proof {
            assert(s@ =~= v@.subrange(0, i as int));
        }
    }
    proof {
        assert(s@ =~= v@);
    }
    s
}

/// Append every character of `src` to `dst`.
pub fn extend_chars(dst: &mut Vec<char>, src: &Vec<char>)
    ensures
        final(dst)@ == old(dst)@ + src@,
{
    let mut i: usize = 0;
    while i < src.len()
        invariant
            i <= src@.len(),
            dst@ == old(dst)@ + src@.subrange(0, i as int),
        decreases src@.len() - i,
    {
        dst.push(src[i]);
        i = i + 1;
        proof {
            assert(dst@ =~= old(dst)@ + src@.subrange(0, i as int));
        }
    }
    proof {
        assert(dst@ =~= old(dst)@ + src@);
    }
}

/// Append every character of the string slice `src` to `dst`.
pub fn extend_str(dst: &mut Vec<char>, src: &str)
    ensures
        final(dst)@ == old(dst)@ + src@,
{
    let n = src.unicode_len();
    let mut i: usize = 0;
    while i < n
        invariant
            n == src@.len(),
            i <= n,
            dst@ == old(dst)@ + src@.subrange(0, i as int),
        decreases n - i,
    {
        dst.push(src.get_char(i));
        i = i + 1;
        proof {
            assert(dst@ =~= old(dst)@ + src@.subrange(0, i as int));
        }
    }
    proof {
        assert(dst@ =~= old(dst)@ + src@);
    }
}

/// Character-for-character equality of two string slices.
pub fn str_eq(a: &str, b: &str) -> (r: bool)
    ensures
        r == (a@ == b@),
{
    let na = a.unicode_len();
    let nb = b.unicode_len();
    if na != nb {
        proof {
            assert(a@ != b@);
        }
        return false;
    }
    let mut i: usize = 0;
    while i < na
        invariant
            na == a@.len(),
            b@.len() == na,
            i <= na,
            forall|j: int| 0 <= j < i ==> a@[j] == b@[j],
        decreases na - i,
    {
        if a.get_char(i) != b.get_char(i) {
            return false;
        }
        i = i + 1;
    }
    proof {
        assert(a@ =~= b@);
    }
    true
}

/// Equality of a character vector against a string slice.
pub fn chars_eq_str(a: &Vec<char>, b: &str) -> (r: bool)
    ensures
        r == (a@ == b@),
{
    let n = b.unicode_len();
    if a.len() != n {
        proof {
            assert(a@ != b@);
        }
        return false;
    }
    let mut i: usize = 0;
    while i < n
        invariant
            n == b@.len(),
            a@.len() == n,
            i <= n,
            forall|j: int| 0 <= j < i ==> a@[j] == b@[j],
        decreases n - i,
    {
        if a[i] != b.get_char(i) {
            return false;
        }
        i = i + 1;
    }
    proof {
        assert(a@ =~= b@);
    }
    true
}

/// The decimal digits of `n`, most significant first.
pub open spec fn dec_digits(n: nat) -> Seq<char>
    decreases n,
{
    if n < 10 {
        seq![digit_char(n)]
    } else {
        dec_digits(n / 10) + seq![digit_char(n % 10)]
    }
}

pub open spec fn digit_char(d: nat) -> char {
    if d == 0 {
        '0'
    } else if d == 1 {
        '1'
    } else if d == 2 {
        '2'
    } else if d == 3 {
        '3'
    } else if d == 4 {
        '4'
    } else if d == 5 {
        '5'
    } else if d == 6 {
        '6'
    } else if d == 7 {
        '7'
    } else if d == 8 {
        '8'
    } else {
        '9'
    }
}

/// The numeric value a digit character stands for, or 10 for any other
/// character.
pub open spec fn digit_val(c: char) -> nat {
    if c == '0' {
        0
    } else if c == '1' {
        1
    } else if c == '2' {
        2
    } else if c == '3' {
        3
    } else if c == '4' {
        4
    } else if c == '5' {
        5
    } else if c == '6' {
        6
    } else if c == '7' {
        7
    } else if c == '8' {
        8
    } else if c == '9' {
        9
    } else {
        10
    }
}

/// The value of a digit string, most significant digit first.
pub open spec fn dec_value(s: Seq<char>) -> nat
    decreases s.len(),
{
    if s.len() == 0 {
        0
    } else {
        dec_value(s.drop_last()) * 10 + digit_val(s.last())
    }
}

/// Reading back the rendered digits of `n` gives `n`: rendering is injective.
pub proof fn lemma_dec_digits_value(n: nat)
    ensures
        dec_value(dec_digits(n)) == n,
    decreases n,
{
    if n < 10 {
        assert(dec_digits(n) =~= seq![digit_char(n)]);
        assert(dec_digits(n).drop_last() =~= Seq::<char>::empty());
        assert(digit_val(digit_char(n)) == n);
        assert(dec_value(Seq::<char>::empty()) == 0);
        assert(dec_value(dec_digits(n)) == dec_value(dec_digits(n).drop_last()) * 10 + digit_val(
            dec_digits(n).last(),
        ));
    } else {
        lemma_dec_digits_value(n / 10);
        assert(dec_digits(n).drop_last() =~= dec_digits(n / 10));
        assert(dec_digits(n).last() == digit_char(n % 10));
        assert(digit_val(digit_char(n % 10)) == n % 10);
        assert(dec_digits(n).len() > 0);
        assert(dec_value(dec_digits(n)) == dec_value(dec_digits(n).drop_last()) * 10 + digit_val(
            dec_digits(n).last(),
        ));
        assert(dec_value(dec_digits(n)) == (n / 10) * 10 + n % 10);
        assert(n == (n / 10) * 10 + n % 10) by (nonlinear_arith);
    }
}

/// Render `n` as decimal characters.
pub fn dec_chars(n: u64) -> (v: Vec<char>)
    ensures
        v@ == dec_digits(n as nat),
{
    let mut digits: Vec<char> = Vec::new();
    let mut m: u64 = n;
    if m < 10 {
        digits.push(digit_char_x(m));
        proof {
            assert(digits@ =~= dec_digits(n as nat));
        }
        return digits;
    }
    // collect least significant digits first, then reverse
    let mut rev: Vec<char> = Vec::new();
    while m >= 10
        invariant
            dec_digits(n as nat) =~= dec_digits(m as nat) + rev@.reverse(),
        decreases m,
    {
        let d = m % 10;
        rev.push(digit_char_x(d));
        proof {
            assert(dec_digits(m as nat) =~= dec_digits((m / 10) as nat) + seq![
                digit_char((m % 10) as nat),
            ]);
            assert((dec_digits((m / 10) as nat) + seq![digit_char((m % 10) as nat)])
                + rev@.drop_last().reverse() =~= dec_digits((m / 10) as nat) + rev@.reverse());
        }
        m = m / 10;
    }
    digits.push(digit_char_x(m));
    let mut i: usize = rev.len();
    proof {
        assert(digits@ =~= dec_digits(m as nat));
    }
    while i > 0
        invariant
            i <= rev@.len(),
            digits@ == dec_digits(m as nat) + rev@.subrange(i as int, rev@.len() as int).reverse(),
        decreases i,
    {
        i = i - 1;
        digits.push(rev[i]);
        proof {
            assert(digits@ =~= dec_digits(m as nat) + rev@.subrange(
                i as int,
                rev@.len() as int,
            ).reverse());
        }
    }
    proof {
        assert(rev@.subrange(0, rev@.len() as int) =~= rev@);
        assert(digits@ =~= dec_digits(n as nat));
    }
    digits
}

/// Executable digit character.
fn digit_char_x(d: u64) -> (c: char)
    requires
        d < 10,
    ensures
        c == digit_char(d as nat),
{
    match d {
        0 => '0',
        1 => '1',
        2 => '2',
        3 => '3',
        4 => '4',
        5 => '5',
        6 => '6',
        7 => '7',
        8 => '8',
        _ => '9',
    }
}

} // verus!
