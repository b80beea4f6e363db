//! Character-sequence helpers: substring search, prefix tests, replacement,
//! ASCII case folding, decimal rendering and the few std text functions
//! that the rest of the library leans on.
use vstd::prelude::*;

verus! {

broadcast use vstd::string::group_string_axioms;

// ---------------------------------------------------------------------------
// Specifications
// ---------------------------------------------------------------------------

/// `p` occurs in `s` starting at position `i`.
pub open spec fn matches_at(s: Seq<char>, p: Seq<char>, i: int) -> bool {
    &&& 0 <= i
    &&& i + p.len() <= s.len()
    &&& s.subrange(i, i + p.len()) == p
}

/// `p` occurs somewhere in `s`.
pub open spec fn has_sub(s: Seq<char>, p: Seq<char>) -> bool {
    exists|i: int| #[trigger] matches_at(s, p, i)
}

/// `s` begins with `p`.
pub open spec fn has_prefix(s: Seq<char>, p: Seq<char>) -> bool {
    matches_at(s, p, 0)
}

/// Left-to-right, non-overlapping replacement of every occurrence of a
/// non-empty `from` by `to`.
pub open spec fn replace_all(s: Seq<char>, from: Seq<char>, to: Seq<char>) -> Seq<char>
    decreases s.len(),
{
    if from.len() == 0 || s.len() == 0 {
        s
    } else if has_prefix(s, from) {
        to + replace_all(s.skip(from.len() as int), from, to)
    } else {
        seq![s[0]] + replace_all(s.skip(1), from, to)
    }
}

/// The ASCII lower-case form of a character; other characters are unchanged.
pub open spec fn ascii_lower(c: char) -> char {
    if 'A' <= c && c <= 'Z' {
        ((c as u32) + 32) as char
    } else {
        c
    }
}

/// Two sequences are equal up to ASCII case.
pub open spec fn eq_ascii_nocase(a: Seq<char>, b: Seq<char>) -> bool {
    &&& a.len() == b.len()
    &&& forall|i: int| 0 <= i < a.len() ==> ascii_lower(#[trigger] a[i]) == ascii_lower(b[i])
}

/// The ASCII lower-case form of a whole sequence.
pub open spec fn ascii_lower_seq(s: Seq<char>) -> Seq<char> {
    s.map_values(|c: char| ascii_lower(c))
}

pub open spec fn is_ascii_char(c: char) -> bool {
    c <= '\u{7f}'
}

pub open spec fn is_ascii_alnum(c: char) -> bool {
    ||| ('a' <= c && c <= 'z')
    ||| ('A' <= c && c <= 'Z')
    ||| ('0' <= c && c <= '9')
}

/// The decimal digit character for `d < 10`.
pub open spec fn digit_char(d: nat) -> char {
    ((48 + d) as u32) as char
}

/// The decimal rendering of `n`, without sign or leading zeros.
pub open spec fn decimal(n: nat) -> Seq<char>
    decreases n,
{
    if n < 10 {
        seq![digit_char(n)]
    } else {
        decimal(n / 10).push(digit_char(n % 10))
    }
}

/// `s` left-padded with `'0'` to at least `width` characters.
pub open spec fn zero_pad(s: Seq<char>, width: nat) -> Seq<char> {
    if s.len() >= width {
        s
    } else {
        Seq::new((width - s.len()) as nat, |i: int| '0') + s
    }
}

/// `h` hundredths written with exactly two decimals, as in `12.05`.
pub open spec fn fixed2(h: nat) -> Seq<char> {
    decimal(h / 100) + seq!['.'] + zero_pad(decimal(h % 100), 2)
}

/// `t` tenths written with exactly one decimal, as in `3.5`.
pub open spec fn fixed1(t: nat) -> Seq<char> {
    decimal(t / 10) + seq!['.'] + decimal(t % 10)
}

/// `num / den` rounded to the nearest integer, ties to the even neighbour.
pub open spec fn round_half_even(num: nat, den: nat) -> nat
    recommends
        den > 0,
{
    let q = num / den;
    let r = num % den;
    if 2 * r > den || (2 * r == den && q % 2 == 1) {
        q + 1
    } else {
        q
    }
}

// ---------------------------------------------------------------------------
// Names and wrappers for std text functions that vstd does not specify
// ---------------------------------------------------------------------------

/// What `str::to_lowercase` returns for a string.
pub uninterp spec fn lowercase_of(s: Seq<char>) -> Seq<char>;

/// Calls `str::to_lowercase`. Its result is named `lowercase_of`; for a
/// string made of ASCII characters only it is the ASCII lower-case form
/// (std documents lower-casing by the Unicode Lowercase mapping, which maps
/// ASCII letters to ASCII letters and leaves other ASCII characters alone).
#[verifier::external_body]
pub(crate) fn to_lowercase(s: &str) -> (r: String)
    ensures
        r@ == lowercase_of(s@),
        (forall|i: int| 0 <= i < s@.len() ==> is_ascii_char(#[trigger] s@[i])) ==> r@
            == ascii_lower_seq(s@),
{
    s.to_lowercase()
}

/// Calls `String::push`: appends one character.
#[verifier::external_body]
pub(crate) fn push_char(s: &mut String, c: char)
    ensures
        final(s)@ == old(s)@.push(c),
{
    s.push(c)
}

// ---------------------------------------------------------------------------
// Verified helpers
// ---------------------------------------------------------------------------

/// The characters of a string slice.
pub fn chars_of(s: &str) -> (v: Vec<char>)
    ensures
        v@ == s@,
{
    let mut v: Vec<char> = Vec::new();
    for c in it: s.chars()
        invariant
            v@ == it.seq().take(it.index() as int),
    {
        v.push(c);
    }
    v
}

/// A string holding the given characters.
pub fn string_of(v: &[char]) -> (s: String)
    ensures
        s@ == v@,
{
    let mut s = String::new();
    let n = v.len();
    for i in 0..n
        invariant
            n == v@.len(),
            s@ == v@.take(i as int),
    {
        push_char(&mut s, v[i]);
        assert(v@.take(i as int).push(v@[i as int]) == v@.take(i + 1));
    }
    assert(v@.take(n as int) == v@);
    s
}

/// Appends a string slice.
pub fn append(s: &mut String, t: &str)
    ensures
        final(s)@ == old(s)@ + t@,
{
    s.append(t);
}

/// Whether `p` occurs in `s` at position `i`.
pub fn matches_at_exec(s: &[char], p: &[char], i: usize) -> (r: bool)
    ensures
        r == matches_at(s@, p@, i as int),
{
    if i > s.len() || p.len() > s.len() - i {
        return false;
    }
    let n = p.len();
    for k in 0..n
        invariant
            n == p@.len(),
            i + n <= s.len(),
            forall|j: int| 0 <= j < k ==> s@[i + j] == p@[j],
    {
        if s[i + k] != p[k] {
            assert(s@.subrange(i as int, i + n)[k as int] != p@[k as int]);
            return false;
        }
    }
    assert(s@.subrange(i as int, i + n) =~= p@);
    true
}

/// Whether two strings hold the same characters.
pub fn str_eq(a: &str, b: &str) -> (r: bool)
    ensures
        r == (a@ == b@),
{
    let av = chars_of(a);
    let bv = chars_of(b);
    if av.len() != bv.len() {
        return false;
    }
    let r = matches_at_exec(av.as_slice(), bv.as_slice(), 0);
    assert(av@.subrange(0, av@.len() as int) =~= av@);
    r
}

/// Whether `p` occurs anywhere in `s`.
pub fn contains_chars(s: &[char], p: &[char]) -> (r: bool)
    ensures
        r == has_sub(s@, p@),
{
    if p.len() > s.len() {
        assert forall|i: int| !matches_at(s@, p@, i) by {}
        return false;
    }
    let last = s.len() - p.len();
    for i in 0..last
        invariant
            last == s@.len() - p@.len(),
            p@.len() <= s@.len(),
            forall|j: int| 0 <= j < i ==> !matches_at(s@, p@, j),
    {
        if matches_at_exec(s, p, i) {
            return true;
        }
    }
    if matches_at_exec(s, p, last) {
        return true;
    }
    assert forall|j: int| !matches_at(s@, p@, j) by {
        if 0 <= j && j < last {
        }
    }
    false
}

/// Whether `p` occurs anywhere in `s`.
pub fn contains(s: &str, p: &str) -> (r: bool)
    ensures
        r == has_sub(s@, p@),
{
    let sv = chars_of(s);
    let pv = chars_of(p);
    contains_chars(sv.as_slice(), pv.as_slice())
}

/// Whether `s` begins with `p`.
pub fn starts_with(s: &str, p: &str) -> (r: bool)
    ensures
        r == has_prefix(s@, p@),
{
    let sv = chars_of(s);
    let pv = chars_of(p);
    matches_at_exec(sv.as_slice(), pv.as_slice(), 0)
}

/// Replaces every non-overlapping occurrence of `from`, scanning left to
/// right, by `to`.
pub fn replace(s: &str, from: &str, to: &str) -> (r: String)
    requires
        from@.len() > 0,
    ensures
        r@ == replace_all(s@, from@, to@),
{
    let sv = chars_of(s);
    let fv = chars_of(from);
    let tv = chars_of(to);
    let n = sv.len();
    let mut out: Vec<char> = Vec::new();
    let mut i: usize = 0;
    assert(sv@.skip(0) == sv@);
    while i < n
        invariant
            n == sv@.len(),
            sv@ == s@,
            fv@ == from@,
            tv@ == to@,
            from@.len() > 0,
            i <= n,
            out@ + replace_all(sv@.skip(i as int), fv@, tv@) == replace_all(sv@, fv@, tv@),
        decreases n - i,
    {
        let ghost rest = sv@.skip(i as int);
        if matches_at_exec(sv.as_slice(), fv.as_slice(), i) {
            assert(rest.subrange(0, fv@.len() as int) == sv@.subrange(
                i as int,
                i + fv@.len(),
            ));
            assert(rest.skip(fv@.len() as int) == sv@.skip(i + fv@.len()));
            let m = tv.len();
            let ghost before = out@;
            for k in 0..m
                invariant
                    m == tv@.len(),
                    out@ == before + tv@.take(k as int),
            {
                out.push(tv[k]);
                assert(tv@.take(k as int).push(tv@[k as int]) == tv@.take(k + 1));
            }
            assert(tv@.take(m as int) == tv@);
            assert(out@ + replace_all(sv@.skip(i + fv@.len()), fv@, tv@) == before + (tv@
                + replace_all(sv@.skip(i + fv@.len()), fv@, tv@)));
            i = i + fv.len();
        } else {
            assert(!has_prefix(rest, fv@)) by {
                if rest.len() >= fv@.len() {
                    assert(rest.subrange(0, fv@.len() as int) == sv@.subrange(
                        i as int,
                        i + fv@.len(),
                    ));
                }
            }
            assert(rest.skip(1) == sv@.skip(i + 1));
            assert(rest[0] == sv@[i as int]);
            let ghost before = out@;
            out.push(sv[i]);
            assert(out@ + replace_all(sv@.skip(i + 1), fv@, tv@) == before + (seq![sv@[i as int]]
                + replace_all(sv@.skip(i + 1), fv@, tv@)));
            i = i + 1;
        }
    }
    assert(sv@.skip(n as int).len() == 0);
    assert(out@ + replace_all(sv@.skip(n as int), fv@, tv@) == out@);
    string_of(out.as_slice())
}

/// The ASCII lower-case form of one character.
pub fn ascii_lower_char(c: char) -> (r: char)
    ensures
        r == ascii_lower(c),
{
    if 'A' <= c && c <= 'Z' {
        let code: u32 = c as u32 + 32;
        // code is in 'a'..='z'
        char_from_ascii(code)
    } else {
        c
    }
}

fn char_from_ascii(code: u32) -> (c: char)
    requires
        code < 128,
    ensures
        c == code as char,
{
    let b: u8 = code as u8;
    b as char
}

/// Checks that two strings match up to ASCII case (the behaviour of
/// `str::eq_ignore_ascii_case`, stated over characters).
pub fn eq_ignore_ascii_case(a: &str, b: &str) -> (r: bool)
    ensures
        r == eq_ascii_nocase(a@, b@),
{
    let av = chars_of(a);
    let bv = chars_of(b);
    if av.len() != bv.len() {
        return false;
    }
    let n = av.len();
    for i in 0..n
        invariant
            n == av@.len(),
            n == bv@.len(),
            av@ == a@,
            bv@ == b@,
            forall|j: int| 0 <= j < i ==> ascii_lower(#[trigger] av@[j]) == ascii_lower(bv@[j]),
    {
        if ascii_lower_char(av[i]) != ascii_lower_char(bv[i]) {
            return false;
        }
    }
    true
}

/// Appends the decimal rendering of `n`.
pub fn push_decimal(out: &mut String, n: u128)
    ensures
        final(out)@ == old(out)@ + decimal(n as nat),
    decreases n,
{
    if n >= 10 {
        push_decimal(out, n / 10);
    }
    let d: u32 = (n % 10) as u32;
    push_char(out, char_from_ascii(48 + d));
    proof {
        if n >= 10 {
            assert(decimal(n as nat) == decimal((n / 10) as nat).push(digit_char((n % 10) as nat)));
        }
    }
}

/// The decimal rendering of `n`.
pub fn decimal_string(n: u128) -> (s: String)
    ensures
        s@ == decimal(n as nat),
{
    let mut s = String::new();
    push_decimal(&mut s, n);
    s
}

/// Appends the decimal rendering of `n`, left-padded with zeros to `width`.
pub fn push_decimal_padded(out: &mut String, n: u128, width: usize)
    ensures
        final(out)@ == old(out)@ + zero_pad(decimal(n as nat), width as nat),
{
    let d = decimal_string(n);
    let len = d.as_str().unicode_len();
    let ghost start = out@;
    if len < width {
        let pad = width - len;
        for k in 0..pad
            invariant
                out@ == start + Seq::new(k as nat, |i: int| '0'),
        {
            push_char(out, '0');
            assert(start + Seq::new(k as nat, |i: int| '0') + seq!['0'] =~= start + Seq::new(
                (k + 1) as nat,
                |i: int| '0',
            ));
        }
    }
    append(out, d.as_str());
    assert(out@ =~= start + zero_pad(decimal(n as nat), width as nat));
}

/// Appends `h` hundredths with exactly two decimals.
pub fn push_fixed2(out: &mut String, h: u128)
    ensures
        final(out)@ == old(out)@ + fixed2(h as nat),
{
    let ghost start = out@;
    push_decimal(out, h / 100);
    push_char(out, '.');
    push_decimal_padded(out, h % 100, 2);
    assert(out@ =~= start + fixed2(h as nat));
}

/// Appends `t` tenths with exactly one decimal.
pub fn push_fixed1(out: &mut String, t: u128)
    ensures
        final(out)@ == old(out)@ + fixed1(t as nat),
{
    let ghost start = out@;
    push_decimal(out, t / 10);
    push_char(out, '.');
    push_decimal(out, t % 10);
    assert(out@ =~= start + fixed1(t as nat));
}

/// `num / den` rounded to the nearest integer, ties to even.
pub fn div_round_half_even(num: u128, den: u128) -> (q: u128)
    requires
        den > 0,
        num / den < u128::MAX,
    ensures
        q == round_half_even(num as nat, den as nat),
{
    let q = num / den;
    let r = num % den;
    if r > den - r || (r == den - r && q % 2 == 1) {
        q + 1
    } else {
        q
    }
}

} // verus!
