use vstd::prelude::*;

verus! {

broadcast use vstd::string::axiom_spec_iter;

/// Whether `char::is_numeric` holds of a character outside ASCII (Unicode
/// general categories Nd, Nl and No).
pub uninterp spec fn unicode_numeric(c: char) -> bool;

/// Whether `char::is_alphabetic` holds of a character outside ASCII
/// (Unicode property Alphabetic).
pub uninterp spec fn unicode_alphabetic(c: char) -> bool;

/// Whether `char::is_whitespace` holds of a character outside ASCII
/// (Unicode property White_Space).
pub uninterp spec fn unicode_whitespace(c: char) -> bool;

/// Whether a character is an ASCII character.
pub open spec fn is_ascii_char(c: char) -> bool {
    (c as u32) < 128
}

/// Whether `char::is_numeric` holds of a character: of the ASCII
/// characters, the digits `0` to `9`.
pub open spec fn numeric_char(c: char) -> bool {
    if is_ascii_char(c) {
        '0' <= c && c <= '9'
    } else {
        unicode_numeric(c)
    }
}

/// Whether `char::is_alphabetic` holds of a character: of the ASCII
/// characters, the letters `A` to `Z` and `a` to `z`.
pub open spec fn alphabetic_char(c: char) -> bool {
    if is_ascii_char(c) {
        ('A' <= c && c <= 'Z') || ('a' <= c && c <= 'z')
    } else {
        unicode_alphabetic(c)
    }
}

/// Whether `char::is_whitespace` holds of a character: of the ASCII
/// characters, tab, line feed, vertical tab, form feed, carriage return and
/// space.
pub open spec fn whitespace_char(c: char) -> bool {
    if is_ascii_char(c) {
        c == '\t' || c == '\n' || c == '\x0B' || c == '\x0C' || c == '\r' || c == ' '
    } else {
        unicode_whitespace(c)
    }
}

/// Calls `char::is_numeric`. Of the ASCII characters only the digits have a
/// number category; other characters go by the Unicode tables, whose
/// answer is named `unicode_numeric(c)`.
#[verifier::external_body]
pub(crate) fn is_numeric(c: char) -> (r: bool)
    ensures
        is_ascii_char(c) ==> (r <==> ('0' <= c && c <= '9')),
        !is_ascii_char(c) ==> r == unicode_numeric(c),
{
    c.is_numeric()
}

/// Calls `char::is_alphabetic`. Of the ASCII characters only the letters
/// are alphabetic; other characters go by the Unicode tables, whose answer
/// is named `unicode_alphabetic(c)`.
#[verifier::external_body]
pub(crate) fn is_alphabetic(c: char) -> (r: bool)
    ensures
        is_ascii_char(c) ==> (r <==> (('A' <= c && c <= 'Z') || ('a' <= c && c <= 'z'))),
        !is_ascii_char(c) ==> r == unicode_alphabetic(c),
{
    c.is_alphabetic()
}

/// Calls `char::is_whitespace`. Of the ASCII characters only tab, line
/// feed, vertical tab, form feed, carriage return and space are white
/// space; other characters go by the Unicode tables, whose answer is named
/// `unicode_whitespace(c)`.
#[verifier::external_body]
pub(crate) fn is_whitespace(c: char) -> (r: bool)
    ensures
        is_ascii_char(c) ==> (r <==> (c == '\t' || c == '\n' || c == '\x0B' || c == '\x0C' || c == '\r'
            || c == ' ')),
        !is_ascii_char(c) ==> r == unicode_whitespace(c),
{
    c.is_whitespace()
}

/// The characters of a string slice, in order.
pub(crate) fn str_chars(s: &str) -> (r: Vec<char>)
    ensures
        r@ == s@,
{
    let mut v: Vec<char> = Vec::new();
    for c in it: s.chars()
        invariant
            v@.len() == it.index(),
            forall|j: int| 0 <= j < v@.len() ==> v@[j] == it.seq()[j],
    {
        v.push(c);
    }
    assert(v@ =~= s@);
    v
}

/// Collects characters into a `String` (`FromIterator<char>`): the string
/// holds exactly those characters, in order.
#[verifier::external_body]
pub(crate) fn chars_to_string(v: &Vec<char>) -> (r: String)
    ensures
        r@ == v@,
{
    v.iter().collect()
}

/// The characters of a string.
pub fn string_chars(s: &String) -> (r: Vec<char>)
    ensures
        r@ == s@,
{
    str_chars(s.as_str())
}

/// A string made of the characters of a literal.
pub fn text_of(s: &str) -> (r: String)
    ensures
        r@ == s@,
{
    let v = str_chars(s);
    chars_to_string(&v)
}

/// The characters `v[start..end]`.
pub fn sub_chars(v: &Vec<char>, start: usize, end: usize) -> (r: Vec<char>)
    requires
        start <= end <= v@.len(),
    ensures
        r@ == v@.subrange(start as int, end as int),
{
    let mut r: Vec<char> = Vec::new();
    let mut i = start;
    while i < end
        invariant
            start <= i <= end <= v@.len(),
            r@ == v@.subrange(start as int, i as int),
        decreases end - i,
    {
        r.push(v[i]);
        i = i + 1;
        assert(r@ =~= v@.subrange(start as int, i as int));
    }
    r
}

/// `a` followed by `b`.
pub fn concat_chars(a: &Vec<char>, b: &Vec<char>) -> (r: Vec<char>)
    ensures
        r@ == a@ + b@,
{
    let mut r: Vec<char> = Vec::new();
    let mut i: usize = 0;
    while i < a.len()
        invariant
            i <= a@.len(),
            r@ == a@.subrange(0, i as int),
        decreases a.len() - i,
    {
        r.push(a[i]);
        i = i + 1;
        assert(r@ =~= a@.subrange(0, i as int));
    }
    let mut j: usize = 0;
    while j < b.len()
        invariant
            j <= b@.len(),
            r@ == a@ + b@.subrange(0, j as int),
        decreases b.len() - j,
    {
        r.push(b[j]);
        j = j + 1;
        assert(r@ =~= a@ + b@.subrange(0, j as int));
    }
    assert(b@.subrange(0, b@.len() as int) =~= b@);
    assert(a@.subrange(0, a@.len() as int) =~= a@);
    r
}

/// Whether the characters of `v` are those of the literal `s`.
pub fn chars_equal_str(v: &Vec<char>, s: &str) -> (r: bool)
    ensures
        r == (v@ == s@),
{
    let w = str_chars(s);
    if v.len() != w.len() {
        return false;
    }
    let mut i: usize = 0;
    while i < v.len()
        invariant
            i <= v@.len(),
            v@.len() == w@.len(),
            w@ == s@,
            forall|j: int| 0 <= j < i ==> v@[j] == w@[j],
        decreases v.len() - i,
    {
        if v[i] != w[i] {
            return false;
        }
        i = i + 1;
    }
    assert(v@ =~= w@);
    true
}

/// The number of leading characters of `s` that are white space.
pub open spec fn leading_space(s: Seq<char>) -> nat
    decreases s.len(),
{
    if s.len() > 0 && whitespace_char(s[0]) {
        1 + leading_space(s.drop_first())
    } else {
        0
    }
}

/// The number of trailing characters of `s` that are white space.
pub open spec fn trailing_space(s: Seq<char>) -> nat
    decreases s.len(),
{
    if s.len() > 0 && whitespace_char(s.last()) {
        1 + trailing_space(s.drop_last())
    } else {
        0
    }
}

/// `s` without its leading and trailing white space (what `str::trim` gives).
pub open spec fn trim_spec(s: Seq<char>) -> Seq<char> {
    if leading_space(s) == s.len() {
        Seq::empty()
    } else {
        s.subrange(leading_space(s) as int, s.len() - trailing_space(s))
    }
}

proof fn lemma_leading_space(s: Seq<char>, i: int)
    requires
        0 <= i <= s.len(),
        forall|j: int| 0 <= j < i ==> whitespace_char(s[j]),
    ensures
        leading_space(s) >= i,
        i < s.len() && !whitespace_char(s[i]) ==> leading_space(s) == i,
        leading_space(s) <= s.len(),
        leading_space(s) < s.len() ==> !whitespace_char(s[leading_space(s) as int]),
    decreases i,
{
    if i > 0 {
        lemma_leading_space(s.drop_first(), i - 1);
    } else {
        lemma_leading_space_bounds(s);
    }
}

/// The leading spaces of a text lie within it.
pub proof fn lemma_leading_space_bounds(s: Seq<char>)
    ensures
        leading_space(s) <= s.len(),
        leading_space(s) < s.len() ==> !whitespace_char(s[leading_space(s) as int]),
        forall|j: int| 0 <= j < leading_space(s) ==> whitespace_char(s[j]),
    decreases s.len(),
{
    if s.len() > 0 && whitespace_char(s[0]) {
        lemma_leading_space_bounds(s.drop_first());
        assert forall|j: int| 0 <= j < leading_space(s) implies whitespace_char(s[j]) by {
            if j > 0 {
                assert(s[j] == s.drop_first()[j - 1]);
            }
        }
    }
}

/// The trailing spaces of a text lie within it.
pub proof fn lemma_trailing_space_bounds(s: Seq<char>)
    ensures
        trailing_space(s) <= s.len(),
        trailing_space(s) < s.len() ==> !whitespace_char(s[s.len() - 1 - trailing_space(s)]),
        forall|j: int| s.len() - trailing_space(s) <= j < s.len() ==> whitespace_char(s[j]),
    decreases s.len(),
{
    if s.len() > 0 && whitespace_char(s.last()) {
        lemma_trailing_space_bounds(s.drop_last());
        assert forall|j: int| s.len() - trailing_space(s) <= j < s.len() implies whitespace_char(s[j]) by {
            if j < s.len() - 1 {
                assert(s[j] == s.drop_last()[j]);
            }
        }
    }
}

proof fn lemma_trailing_space(s: Seq<char>, k: int)
    requires
        0 <= k <= s.len(),
        forall|j: int| s.len() - k <= j < s.len() ==> whitespace_char(s[j]),
        k < s.len() ==> !whitespace_char(s[s.len() - 1 - k]),
    ensures
        trailing_space(s) == k,
    decreases k,
{
    if k > 0 {
        lemma_trailing_space(s.drop_last(), k - 1);
    }
}

/// `v` without leading and trailing white space, as `str::trim` does it.
pub fn trim_chars(v: &Vec<char>) -> (r: Vec<char>)
    ensures
        r@ == trim_spec(v@),
{
    let mut a: usize = 0;
    while a < v.len() && is_whitespace(v[a])
        invariant
            a <= v@.len(),
            forall|j: int| 0 <= j < a ==> whitespace_char(v@[j]),
        decreases v.len() - a,
    {
        a = a + 1;
    }
    proof {
        lemma_leading_space(v@, a as int);
        lemma_leading_space_bounds(v@);
    }
    if a == v.len() {
        return Vec::new();
    }
    let mut b: usize = v.len();
    while b > a && is_whitespace(v[b - 1])
        invariant
            a < v@.len(),
            a <= b <= v@.len(),
            !whitespace_char(v@[a as int]),
            forall|j: int| b <= j < v@.len() ==> whitespace_char(v@[j]),
        decreases b,
    {
        b = b - 1;
    }
    proof {
        lemma_trailing_space(v@, v@.len() - b);
    }
    sub_chars(v, a, b)
}

/// `s` with every `from` replaced by `to`.
pub open spec fn replace_spec(s: Seq<char>, from: char, to: char) -> Seq<char> {
    s.map_values(|c: char| if c == from { to } else { c })
}

/// `v` with every `from` replaced by `to` (`str::replace` with one-character
/// patterns).
pub fn replace_char(v: &Vec<char>, from: char, to: char) -> (r: Vec<char>)
    ensures
        r@ == replace_spec(v@, from, to),
{
    let mut r: Vec<char> = Vec::new();
    let mut i: usize = 0;
    while i < v.len()
        invariant
            i <= v@.len(),
            r@ == replace_spec(v@.subrange(0, i as int), from, to),
        decreases v.len() - i,
    {
        let c = v[i];
        if c == from {
            r.push(to);
        } else {
            r.push(c);
        }
        i = i + 1;
        assert(r@ =~= replace_spec(v@.subrange(0, i as int), from, to));
    }
    assert(v@.subrange(0, v@.len() as int) =~= v@);
    r
}

/// `trim_spec(s)` is no longer than `s`.
pub proof fn lemma_space_bounds(s: Seq<char>)
    ensures
        trim_spec(s).len() <= s.len(),
{
    lemma_leading_space_bounds(s);
    lemma_trailing_space_bounds(s);
}

} // verus!
