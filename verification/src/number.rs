use vstd::prelude::*;

verus! {

/// Whether `c` is an ASCII decimal digit.
pub open spec fn is_digit(c: char) -> bool {
    '0' <= c && c <= '9'
}

/// The value of the ASCII digit `c`.
pub open spec fn digit_value(c: char) -> int {
    c as int - '0' as int
}

/// The value of a sequence of decimal digits.
pub open spec fn digits_value(d: Seq<char>) -> int
    decreases d.len(),
{
    if d.len() == 0 {
        0
    } else {
        digits_value(d.drop_last()) * 10 + digit_value(d.last())
    }
}

/// Whether every character of `d` is an ASCII digit.
pub open spec fn all_digits(d: Seq<char>) -> bool {
    forall|i: int| 0 <= i < d.len() ==> is_digit(#[trigger] d[i])
}

/// The length of the sign in front of a number: one for `+` or `-`, else zero.
pub open spec fn sign_len(s: Seq<char>) -> int {
    if s.len() > 0 && (s[0] == '-' || s[0] == '+') {
        1
    } else {
        0
    }
}

/// What `str::parse::<isize>` gives: an optional `+` or `-`, then one or
/// more ASCII digits, whose value fits in `isize`.
pub open spec fn parse_isize_spec(s: Seq<char>) -> Option<isize> {
    let d = s.subrange(sign_len(s), s.len() as int);
    if d.len() == 0 || !all_digits(d) {
        None
    } else {
        let v = if s[0] == '-' {
            -digits_value(d)
        } else {
            digits_value(d)
        };
        if isize::MIN <= v <= isize::MAX {
            Some(v as isize)
        } else {
            None
        }
    }
}

proof fn lemma_digits_value_nonneg(d: Seq<char>)
    requires
        forall|i: int| 0 <= i < d.len() ==> is_digit(#[trigger] d[i]),
    ensures
        digits_value(d) >= 0,
    decreases d.len(),
{
    if d.len() > 0 {
        lemma_digits_value_nonneg(d.drop_last());
    }
}

/// Parses `s` as `str::parse::<isize>` does.
pub fn parse_isize(s: &Vec<char>) -> (r: Option<isize>)
    ensures
        r == parse_isize_spec(s@),
{
    let n = s.len();
    let neg = n > 0 && s[0] == '-';
    let start: usize = if n > 0 && (s[0] == '-' || s[0] == '+') {
        1
    } else {
        0
    };
    let ghost d = s@.subrange(sign_len(s@), s@.len() as int);
    assert(start == sign_len(s@));
    if start == n {
        return None;
    }
    let bound: u128 = (isize::MAX as u128) + 1;
    assert(bound <= 0x8000_0000_0000_0000);
    let mut mag: u128 = 0;
    let mut over = false;
    let mut i = start;
    while i < n
        invariant
            start <= i <= n,
            n == s@.len(),
            d == s@.subrange(start as int, n as int),
            bound == isize::MAX + 1,
            start == sign_len(s@),
            bound <= 0x8000_0000_0000_0000,
            forall|j: int| start <= j < i ==> is_digit(#[trigger] s@[j]),
            !over ==> mag == digits_value(s@.subrange(start as int, i as int)),
            !over ==> mag <= bound,
            over ==> digits_value(s@.subrange(start as int, i as int)) > bound,
        decreases n - i,
    {
        let c = s[i];
        if !('0' <= c && c <= '9') {
            assert(d[i - start] == c);
            assert(!is_digit(d[i - start]));
            assert(!all_digits(d));
            return None;
        }
        let ghost pre = s@.subrange(start as int, i as int);
        assert(s@.subrange(start as int, i + 1) =~= pre.push(c));
        assert(s@.subrange(start as int, i + 1).drop_last() =~= pre);
        proof {
            assert forall|j: int| 0 <= j < pre.len() implies is_digit(#[trigger] pre[j]) by {
                assert(pre[j] == s@[start + j]);
            }
            lemma_digits_value_nonneg(pre);
        }
        if !over {
            let dv = (c as u32 - '0' as u32) as u128;
            assert(mag * 10 <= 0x8000_0000_0000_0000 * 10) by (nonlinear_arith)
                requires mag <= 0x8000_0000_0000_0000;
            mag = mag * 10 + dv;
            if mag > bound {
                over = true;
            }
        }
        i = i + 1;
    }
    proof {
        assert(s@.subrange(start as int, n as int) == d);
        assert forall|j: int| 0 <= j < d.len() implies is_digit(#[trigger] d[j]) by {
            assert(d[j] == s@[start + j]);
        }
    }
    if over {
        return None;
    }
    if neg {
        if mag == bound {
            Some(isize::MIN)
        } else {
            Some(-(mag as isize))
        }
    } else {
        if mag >= bound {
            None
        } else {
            Some(mag as isize)
        }
    }
}

/// The character of the digit `n`.
pub open spec fn digit_char(n: int) -> char {
    if n == 0 { '0' } else if n == 1 { '1' } else if n == 2 { '2' } else if n == 3 { '3' }
    else if n == 4 { '4' } else if n == 5 { '5' } else if n == 6 { '6' } else if n == 7 { '7' }
    else if n == 8 { '8' } else { '9' }
}

fn digit_of(n: u128) -> (c: char)
    requires
        n < 10,
    ensures
        c == digit_char(n as int),
{
    if n == 0 { '0' } else if n == 1 { '1' } else if n == 2 { '2' } else if n == 3 { '3' }
    else if n == 4 { '4' } else if n == 5 { '5' } else if n == 6 { '6' } else if n == 7 { '7' }
    else if n == 8 { '8' } else { '9' }
}

/// The decimal text of a natural number, as `Display` writes it.
pub open spec fn nat_text(n: nat) -> Seq<char>
    decreases n,
{
    if n < 10 {
        seq![digit_char(n as int)]
    } else {
        nat_text(n / 10).push(digit_char((n % 10) as int))
    }
}

/// The decimal text of an integer, as `Display` writes it.
pub open spec fn int_text(n: int) -> Seq<char> {
    if n < 0 {
        seq!['-'] + nat_text((-n) as nat)
    } else {
        nat_text(n as nat)
    }
}

/// The digits of `m`, most significant first.
fn magnitude_digits(m: u128) -> (r: Vec<char>)
    ensures
        r@ == nat_text(m as nat),
    decreases m,
{
    let c = digit_of(m % 10);
    if m < 10 {
        let mut r: Vec<char> = Vec::new();
        r.push(c);
        assert(r@ =~= seq![digit_char(m as int)]);
        r
    } else {
        let mut r = magnitude_digits(m / 10);
        r.push(c);
        r
    }
}

/// The decimal text of `n` (`isize::to_string`).
pub fn isize_text(n: isize) -> (r: Vec<char>)
    ensures
        r@ == int_text(n as int),
{
    if n < 0 {
        let m: u128 = (-(n as i128)) as u128;
        let d = magnitude_digits(m);
        let mut r: Vec<char> = Vec::new();
        r.push('-');
        let r = crate::text::concat_chars(&r, &d);
        assert(r@ =~= seq!['-'] + nat_text((-n) as nat));
        r
    } else {
        magnitude_digits(n as u128)
    }
}

/// The decimal text of `n` (`usize::to_string`).
pub fn usize_text(n: usize) -> (r: Vec<char>)
    ensures
        r@ == nat_text(n as nat),
{
    magnitude_digits(n as u128)
}

} // verus!
