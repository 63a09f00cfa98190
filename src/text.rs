//! Small verified helpers for building and inspecting text.
use vstd::prelude::*;
use vstd::string::*;

verus! {

/// Appends one character to a string.
///
/// Relies on `String::push`: the character is added at the end.
#[verifier::external_body]
pub(crate) fn push_char(s: &mut String, c: char)
    ensures
        final(s)@ == old(s)@.push(c),
{
    s.push(c)
}

/// The characters of `s`, in order.
pub fn chars_of(s: &str) -> (r: Vec<char>)
    ensures
        r@ == s@,
{
    let n = s.unicode_len();
    let mut r: Vec<char> = Vec::new();
    let mut i: usize = 0;
    while i < n
        invariant
            n == s@.len(),
            i <= n,
            r@ == s@.subrange(0, i as int),
        decreases n - i,
    {
        r.push(s.get_char(i));
        i = i + 1;
    }
    assert(r@ =~= s@);
    r
}

/// A string holding the characters `cs[from..to]`.
pub fn string_of(cs: &Vec<char>, from: usize, to: usize) -> (r: String)
    requires
        from <= to <= cs@.len(),
    ensures
        r@ == cs@.subrange(from as int, to as int),
{
    let mut r = String::new();
    let mut i: usize = from;
    while i < to
        invariant
            from <= i <= to <= cs@.len(),
            r@ == cs@.subrange(from as int, i as int),
        decreases to - i,
    {
        push_char(&mut r, cs[i]);
        assert(r@ =~= cs@.subrange(from as int, i + 1));
        i = i + 1;
    }
    r
}

/// Appends `t` to `s`.
pub(crate) fn append_str(s: &mut String, t: &str)
    ensures
        final(s)@ == old(s)@ + t@,
{
    s.append(t);
}

/// The ASCII decimal digit for `d`.
pub open spec fn digit_char(d: nat) -> char {
    ((d % 10) + 48) as char
}

/// The decimal notation of `n`, without sign or leading zeros.
pub open spec fn decimal(n: nat) -> Seq<char>
    decreases n,
{
    if n < 10 {
        seq![digit_char(n)]
    } else {
        decimal(n / 10).push(digit_char(n % 10))
    }
}

/// Writes `n` in decimal.
pub fn decimal_string(n: u64) -> (r: String)
    ensures
        r@ == decimal(n as nat),
{
    let mut digits: Vec<char> = Vec::new();
    let mut m: u64 = n;
    // digits are collected from the least significant one
    while m >= 10
        invariant
            decimal(n as nat) == decimal(m as nat) + digits@.reverse(),
        decreases m,
    {
        let d = (m % 10) as u8;
        let c = (d + 48) as char;
        assert(c == digit_char((m % 10) as nat));
        assert(decimal(m as nat) == decimal((m / 10) as nat).push(c));
        assert(decimal(m as nat) + digits@.reverse() =~= decimal((m / 10) as nat) + digits@.push(c).reverse());
        digits.push(c);
        m = m / 10;
    }
    let d = m as u8;
    digits.push((d + 48) as char);
    assert(decimal(n as nat) =~= digits@.reverse());
    let mut r = String::new();
    let mut k: usize = digits.len();
    while k > 0
        invariant
            k <= digits@.len(),
            r@ =~= digits@.subrange(k as int, digits@.len() as int).reverse(),
        decreases k,
    {
        k = k - 1;
        push_char(&mut r, digits[k]);
        assert(r@ =~= digits@.subrange(k as int, digits@.len() as int).reverse());
    }
    r
}

/// `c` with ASCII capitals turned into small letters.
pub open spec fn lower_char(c: char) -> char {
    if 'A' <= c && c <= 'Z' {
        ((c as u32) + 32) as char
    } else {
        c
    }
}

/// `s` with ASCII capitals turned into small letters.
pub open spec fn lower(s: Seq<char>) -> Seq<char> {
    s.map_values(|c: char| lower_char(c))
}

/// `lower_char`, computed.
pub fn ascii_lower_char(c: char) -> (r: char)
    ensures
        r == lower_char(c),
{
    if 'A' <= c && c <= 'Z' {
        ((c as u8) + 32) as char
    } else {
        c
    }
}


/// Position of the first space in `s`, or its length where it holds none.
pub open spec fn first_space(s: Seq<char>) -> nat
    decreases s.len(),
{
    if s.len() == 0 || s[0] == ' ' {
        0
    } else {
        1 + first_space(s.drop_first())
    }
}

/// The part of `s` before its first space.
pub open spec fn token(s: Seq<char>) -> Seq<char> {
    s.take(first_space(s) as int)
}

/// What follows the first space of `s`, if it holds one.
pub open spec fn after_token(s: Seq<char>) -> Option<Seq<char>> {
    if first_space(s) < s.len() {
        Some(s.skip(first_space(s) as int + 1))
    } else {
        None
    }
}

/// Whether `s` holds no space.
pub open spec fn no_space(s: Seq<char>) -> bool {
    forall|i: int| 0 <= i < s.len() ==> s[i] != ' '
}

proof fn lemma_first_space_bound(s: Seq<char>)
    ensures
        first_space(s) <= s.len(),
        no_space(s.take(first_space(s) as int)),
        first_space(s) < s.len() ==> s[first_space(s) as int] == ' ',
    decreases s.len(),
{
    if s.len() > 0 && s[0] != ' ' {
        lemma_first_space_bound(s.drop_first());
        let t = s.drop_first();
        assert forall|i: int| 0 <= i < first_space(s) implies s.take(first_space(s) as int)[i] != ' ' by {
            if i > 0 {
                assert(s.take(first_space(s) as int)[i] == t.take(first_space(t) as int)[i - 1]);
            }
        }
    }
}

/// Splitting a word without spaces from what follows a space.
pub proof fn lemma_split_word(w: Seq<char>, t: Seq<char>)
    requires
        no_space(w),
    ensures
        first_space(w + seq![' '] + t) == w.len(),
        token(w + seq![' '] + t) == w,
        after_token(w + seq![' '] + t) == Some(t),
    decreases w.len(),
{
    let s = w + seq![' '] + t;
    if w.len() > 0 {
        let w2 = w.drop_first();
        assert(s.drop_first() =~= w2 + seq![' '] + t);
        lemma_split_word(w2, t);
    }
    assert(s.take(w.len() as int) =~= w);
    assert(s.skip(w.len() as int + 1) =~= t);
}

/// A word without spaces is its own token.
pub proof fn lemma_whole_word(w: Seq<char>)
    requires
        no_space(w),
    ensures
        first_space(w) == w.len(),
        token(w) == w,
        after_token(w) is None,
    decreases w.len(),
{
    if w.len() > 0 {
        lemma_whole_word(w.drop_first());
    }
    assert(w.take(w.len() as int) =~= w);
}

/// Index of the first space in `cs[from..]`, or the length of `cs`.
pub fn find_space(cs: &Vec<char>, from: usize) -> (r: usize)
    requires
        from <= cs@.len(),
    ensures
        r == from + first_space(cs@.skip(from as int)),
        r <= cs@.len(),
{
    let mut i: usize = from;
    while i < cs.len() && cs[i] != ' '
        invariant
            from <= i <= cs@.len(),
            first_space(cs@.skip(from as int)) == (i - from) + first_space(cs@.skip(i as int)),
        decreases cs@.len() - i,
    {
        assert(cs@.skip(i as int).drop_first() =~= cs@.skip(i + 1));
        i = i + 1;
    }
    proof {
        lemma_first_space_bound(cs@.skip(i as int));
    }
    i
}

/// Whether `cs[from..to]` spells `lit`.
pub fn eq_lit(cs: &Vec<char>, from: usize, to: usize, lit: &str) -> (r: bool)
    requires
        from <= to <= cs@.len(),
    ensures
        r == (cs@.subrange(from as int, to as int) == lit@),
{
    let l = chars_of(lit);
    if to - from != l.len() {
        proof {
            if cs@.subrange(from as int, to as int) == lit@ {
                assert(cs@.subrange(from as int, to as int).len() == lit@.len());
            }
        }
        return false;
    }
    let mut i: usize = 0;
    while i < l.len()
        invariant
            l@ == lit@,
            from <= to <= cs@.len(),
            to - from == l@.len(),
            i <= l@.len(),
            forall|j: int| 0 <= j < i ==> cs@[from + j] == l@[j],
        decreases l@.len() - i,
    {
        if cs[from + i] != l[i] {
            assert(cs@.subrange(from as int, to as int)[i as int] != lit@[i as int]);
            return false;
        }
        i = i + 1;
    }
    assert(cs@.subrange(from as int, to as int) =~= lit@);
    true
}


/// Whether `c` is whitespace as `char::is_whitespace` defines it: the
/// characters with the Unicode `White_Space` property.
pub open spec fn is_ws(c: char) -> bool {
    ('\t' <= c && c <= '\r') || c == ' ' || c == '\u{85}' || c == '\u{a0}' || c == '\u{1680}'
        || ('\u{2000}' <= c && c <= '\u{200a}') || c == '\u{2028}' || c == '\u{2029}' || c
        == '\u{202f}' || c == '\u{205f}' || c == '\u{3000}'
}

/// `is_ws`, computed.
pub fn is_whitespace_char(c: char) -> (r: bool)
    ensures
        r == is_ws(c),
{
    ('\t' <= c && c <= '\r') || c == ' ' || c == '\u{85}' || c == '\u{a0}' || c == '\u{1680}'
        || ('\u{2000}' <= c && c <= '\u{200a}') || c == '\u{2028}' || c == '\u{2029}' || c
        == '\u{202f}' || c == '\u{205f}' || c == '\u{3000}'
}

/// How many whitespace characters `s` starts with.
pub open spec fn lead_ws(s: Seq<char>) -> nat
    decreases s.len(),
{
    if s.len() == 0 || !is_ws(s[0]) {
        0
    } else {
        1 + lead_ws(s.drop_first())
    }
}

/// How many whitespace characters `s` ends with.
pub open spec fn trail_ws(s: Seq<char>) -> nat
    decreases s.len(),
{
    if s.len() == 0 || !is_ws(s.last()) {
        0
    } else {
        1 + trail_ws(s.drop_last())
    }
}

proof fn lemma_ws_bounds(s: Seq<char>)
    ensures
        lead_ws(s) <= s.len(),
        trail_ws(s) <= s.len(),
    decreases s.len(),
{
    if s.len() > 0 {
        lemma_ws_bounds(s.drop_first());
        lemma_ws_bounds(s.drop_last());
    }
}

/// `s` without whitespace at either end, as `str::trim` leaves it.
pub open spec fn trimmed(s: Seq<char>) -> Seq<char> {
    let t = s.skip(lead_ws(s) as int);
    t.take(t.len() - trail_ws(t))
}

/// Text without whitespace is its own trimmed form.
pub proof fn lemma_trim_plain(s: Seq<char>)
    requires
        forall|i: int| 0 <= i < s.len() ==> !is_ws(#[trigger] s[i]),
    ensures
        trimmed(s) == s,
{
    assert(s.skip(0) =~= s);
    if s.len() > 0 {
        assert(!is_ws(s[s.len() - 1]));
    }
    assert(s.take(s.len() as int) =~= s);
}

/// The bounds of `cs[from..to]` without whitespace at either end.
pub fn trim_range(cs: &Vec<char>, from: usize, to: usize) -> (r: (usize, usize))
    requires
        from <= to <= cs@.len(),
    ensures
        from <= r.0 <= r.1 <= to,
        cs@.subrange(r.0 as int, r.1 as int) == trimmed(cs@.subrange(from as int, to as int)),
{
    let mut a: usize = from;
    while a < to && is_whitespace_char(cs[a])
        invariant
            from <= a <= to <= cs@.len(),
            lead_ws(cs@.subrange(from as int, to as int)) == (a - from) + lead_ws(cs@.subrange(a as int, to as int)),
        decreases to - a,
    {
        assert(cs@.subrange(a as int, to as int).drop_first() =~= cs@.subrange(a as int + 1, to as int));
        a = a + 1;
    }
    let mut b: usize = to;
    while b > a && is_whitespace_char(cs[b - 1])
        invariant
            from <= a <= b <= to <= cs@.len(),
            lead_ws(cs@.subrange(from as int, to as int)) == a - from,
            trail_ws(cs@.subrange(a as int, to as int)) == (to - b) + trail_ws(cs@.subrange(a as int, b as int)),
        decreases b - a,
    {
        assert(cs@.subrange(a as int, b as int).drop_last() =~= cs@.subrange(a as int, b as int - 1));
        b = b - 1;
    }
    proof {
        let whole = cs@.subrange(from as int, to as int);
        let t = cs@.subrange(a as int, to as int);
        assert(whole.skip(a - from) =~= t);
        assert(trail_ws(t) == to - b);
        assert(t.take(t.len() - (to - b)) =~= cs@.subrange(a as int, b as int));
    }
    (a, b)
}

} // verus!
