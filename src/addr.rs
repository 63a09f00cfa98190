//! The `host:port` grammar of proxy entries, as std's socket address parser
//! reads it: an IPv4 address in dotted-decimal form, or a bracketed IPv6
//! address with an optional `%scope`, then a decimal port. Only the port is
//! kept.
use vstd::prelude::*;

verus! {

/// Whether `c` is an ASCII decimal digit.
pub open spec fn is_digit(c: char) -> bool {
    '0' <= c && c <= '9'
}

/// Whether `c` is a hexadecimal digit.
pub open spec fn is_hex(c: char) -> bool {
    is_digit(c) || ('a' <= c && c <= 'f') || ('A' <= c && c <= 'F')
}

/// The value of a string of decimal digits.
pub open spec fn digits_value(s: Seq<char>) -> nat
    decreases s.len(),
{
    if s.len() == 0 {
        0
    } else {
        digits_value(s.drop_last()) * 10 + ((s.last() as u32) - 48) as nat
    }
}

/// Whether `s` is made of decimal digits only.
pub open spec fn all_digits(s: Seq<char>) -> bool {
    forall|i: int| 0 <= i < s.len() ==> is_digit(#[trigger] s[i])
}

/// Decimal digits, leading zeros allowed, whose value fits in 16 bits.
pub open spec fn port_text(s: Seq<char>) -> bool {
    1 <= s.len() && all_digits(s) && digits_value(s) <= 65535
}

/// Decimal digits, leading zeros allowed, whose value fits in 32 bits.
pub open spec fn scope_text(s: Seq<char>) -> bool {
    1 <= s.len() && all_digits(s) && digits_value(s) <= 4294967295
}

/// One to three decimal digits, without a leading zero, at most 255.
pub open spec fn octet_text(s: Seq<char>) -> bool {
    1 <= s.len() <= 3 && all_digits(s) && digits_value(s) <= 255 && !(s.len() > 1 && s[0] == '0')
}

/// Position of the first dot in `s`, or its length where it holds none.
pub open spec fn first_dot_char(s: Seq<char>) -> nat
    decreases s.len(),
{
    if s.len() == 0 || s[0] == '.' {
        0
    } else {
        1 + first_dot_char(s.drop_first())
    }
}

proof fn lemma_first_dot_char_bound(s: Seq<char>)
    ensures
        first_dot_char(s) <= s.len(),
    decreases s.len(),
{
    if s.len() > 0 && s[0] != '.' {
        lemma_first_dot_char_bound(s.drop_first());
    }
}

/// Whether `s` is `parts` octets separated by dots.
pub open spec fn dotted_octets(s: Seq<char>, parts: nat) -> bool
    decreases s.len(),
{
    let k = first_dot_char(s);
    if parts == 0 || !octet_text(s.take(k as int)) {
        false
    } else if k >= s.len() {
        parts == 1
    } else {
        parts > 1 && dotted_octets(s.skip(k as int + 1), (parts - 1) as nat)
    }
}

/// Whether `s` is an IPv4 address in dotted-decimal form.
pub open spec fn ipv4_text(s: Seq<char>) -> bool {
    dotted_octets(s, 4)
}

/// Position of the first `c` in `s`, or its length where it holds none.
pub open spec fn first_of(s: Seq<char>, c: char) -> nat
    decreases s.len(),
{
    if s.len() == 0 || s[0] == c {
        0
    } else {
        1 + first_of(s.drop_first(), c)
    }
}

proof fn lemma_first_of_bound(s: Seq<char>, c: char)
    ensures
        first_of(s, c) <= s.len(),
    decreases s.len(),
{
    if s.len() > 0 && s[0] != c {
        lemma_first_of_bound(s.drop_first(), c);
    }
}

/// One to four hexadecimal digits.
pub open spec fn hex_group(s: Seq<char>) -> bool {
    1 <= s.len() <= 4 && forall|i: int| 0 <= i < s.len() ==> is_hex(#[trigger] s[i])
}

/// How many 16-bit groups the colon-separated parts of `s` stand for: each
/// part is a hex group, counting one, except that the last part may be an
/// IPv4 address, counting two, where `v4_last` allows it.
pub open spec fn units(s: Seq<char>, v4_last: bool) -> Option<nat>
    decreases s.len(),
{
    let k = first_of(s, ':');
    let part = s.take(k as int);
    if k >= s.len() {
        if hex_group(part) {
            Some(1nat)
        } else if v4_last && ipv4_text(part) {
            Some(2nat)
        } else {
            None
        }
    } else if !hex_group(part) {
        None
    } else {
        match units(s.skip(k as int + 1), v4_last) {
            Some(n) => Some(n + 1),
            None => None,
        }
    }
}

/// Position of the first `::` in `s`.
pub open spec fn double_colon(s: Seq<char>) -> Option<nat>
    decreases s.len(),
{
    if s.len() < 2 {
        None
    } else if s[0] == ':' && s[1] == ':' {
        Some(0nat)
    } else {
        match double_colon(s.drop_first()) {
            Some(d) => Some(d + 1),
            None => None,
        }
    }
}

/// Whether `s` is an IPv6 address: eight groups, the last two of which may
/// be an IPv4 address; or, around one `::`, at most seven groups in all, with
/// an IPv4 address allowed only at the very end.
pub open spec fn ipv6_addr_text(s: Seq<char>) -> bool {
    match double_colon(s) {
        None => units(s, true) == Some(8nat),
        Some(d) => {
            let head = s.take(d as int);
            let tail = s.skip(d as int + 2);
            let k = if head.len() == 0 { Some(0nat) } else { units(head, false) };
            let m = if tail.len() == 0 { Some(0nat) } else { units(tail, true) };
            k is Some && m is Some && k->0 + m->0 <= 7
        },
    }
}

/// Whether `s` is a bracketed IPv6 host, with an optional `%scope`.
pub open spec fn ipv6_text(s: Seq<char>) -> bool {
    &&& s.len() >= 2
    &&& s[0] == '['
    &&& s.last() == ']'
    &&& {
        let inner = s.subrange(1, s.len() - 1);
        let p = first_of(inner, '%');
        ipv6_addr_text(inner.take(p as int)) && (p >= inner.len() || scope_text(inner.skip(p as int + 1)))
    }
}

/// Position of the last colon in `s`.
pub open spec fn last_colon(s: Seq<char>) -> Option<nat>
    decreases s.len(),
{
    if s.len() == 0 {
        None
    } else if s.last() == ':' {
        Some((s.len() - 1) as nat)
    } else {
        last_colon(s.drop_last())
    }
}

/// The port of a `host:port` address, if `s` is one.
pub open spec fn address_port(s: Seq<char>) -> Option<u16> {
    match last_colon(s) {
        None => None,
        Some(c) => {
            let host = s.take(c as int);
            let port = s.skip(c as int + 1);
            if (ipv4_text(host) || ipv6_text(host)) && port_text(port) {
                Some(digits_value(port) as u16)
            } else {
                None
            }
        },
    }
}

proof fn lemma_last_colon(s: Seq<char>)
    ensures
        match last_colon(s) {
            Some(c) => c < s.len() && s[c as int] == ':',
            None => true,
        },
    decreases s.len(),
{
    if s.len() > 0 && s.last() != ':' {
        lemma_last_colon(s.drop_last());
        match last_colon(s.drop_last()) {
            Some(c) => {
                assert(s[c as int] == s.drop_last()[c as int]);
            },
            None => {},
        }
    }
}

/// Whether `cs[from..to]` are all digits, and their value where they are, when
/// the value fits in `limit`.
fn digits_within(cs: &Vec<char>, from: usize, to: usize, limit: u64) -> (r: bool)
    requires
        from <= to <= cs@.len(),
        limit <= 4294967295,
    ensures
        r == (all_digits(cs@.subrange(from as int, to as int)) && digits_value(
            cs@.subrange(from as int, to as int),
        ) <= limit),
{
    let mut v: u64 = 0;
    let mut i: usize = from;
    while i < to
        invariant
            from <= i <= to <= cs@.len(),
            limit <= 4294967295,
            all_digits(cs@.subrange(from as int, i as int)),
            v == digits_value(cs@.subrange(from as int, i as int)),
            v <= limit,
        decreases to - i,
    {
        let c = cs[i];
        let ghost pre = cs@.subrange(from as int, i as int);
        let ghost next = cs@.subrange(from as int, i as int + 1);
        assert(next.drop_last() =~= pre);
        if !('0' <= c && c <= '9') {
            proof {
                assert(cs@.subrange(from as int, to as int)[i - from] == c);
            }
            return false;
        }
        let d = ((c as u32) - 48) as u64;
        let nv = v * 10 + d;
        assert(nv == digits_value(next));
        if nv > limit {
            proof {
                if all_digits(cs@.subrange(from as int, to as int)) {
                    lemma_digits_prefix(cs@.subrange(from as int, to as int), i - from + 1);
                    assert(cs@.subrange(from as int, to as int).take(i - from + 1) =~= next);
                }
            }
            return false;
        }
        v = nv;
        i = i + 1;
    }
    true
}

/// A digit string's value is at least that of each of its prefixes.
proof fn lemma_digits_prefix(s: Seq<char>, k: int)
    requires
        0 <= k <= s.len(),
        all_digits(s),
    ensures
        digits_value(s.take(k)) <= digits_value(s),
    decreases s.len(),
{
    if k < s.len() {
        assert(s.drop_last().take(k) =~= s.take(k));
        lemma_digits_prefix(s.drop_last(), k);
    } else {
        assert(s.take(k) =~= s);
    }
}

/// `octet_text` of `cs[from..to]`.
fn is_octet(cs: &Vec<char>, from: usize, to: usize) -> (r: bool)
    requires
        from <= to <= cs@.len(),
    ensures
        r == octet_text(cs@.subrange(from as int, to as int)),
{
    let len = to - from;
    if len < 1 || len > 3 {
        return false;
    }
    if len > 1 && cs[from] == '0' {
        return false;
    }
    digits_within(cs, from, to, 255)
}

/// Index of the first dot in `cs[from..to]`, or `to`.
fn find_dot_char(cs: &Vec<char>, from: usize, to: usize) -> (r: usize)
    requires
        from <= to <= cs@.len(),
    ensures
        r == from + first_dot_char(cs@.subrange(from as int, to as int)),
        r <= to,
{
    let mut i: usize = from;
    while i < to && cs[i] != '.'
        invariant
            from <= i <= to <= cs@.len(),
            first_dot_char(cs@.subrange(from as int, to as int)) == (i - from) + first_dot_char(
                cs@.subrange(i as int, to as int),
            ),
        decreases to - i,
    {
        assert(cs@.subrange(i as int, to as int).drop_first() =~= cs@.subrange(i as int + 1, to as int));
        i = i + 1;
    }
    proof {
        lemma_first_dot_char_bound(cs@.subrange(i as int, to as int));
    }
    i
}

/// `ipv4_text` of `cs[from..to]`.
fn is_ipv4(cs: &Vec<char>, from: usize, to: usize) -> (r: bool)
    requires
        from <= to <= cs@.len(),
    ensures
        r == ipv4_text(cs@.subrange(from as int, to as int)),
{
    let mut i: usize = from;
    let mut parts: u8 = 4;
    loop
        invariant
            from <= i <= to <= cs@.len(),
            1 <= parts <= 4,
            ipv4_text(cs@.subrange(from as int, to as int)) == dotted_octets(
                cs@.subrange(i as int, to as int),
                parts as nat,
            ),
        decreases to - i,
    {
        let e = find_dot_char(cs, i, to);
        let ghost s = cs@.subrange(i as int, to as int);
        assert(s.take(e - i) =~= cs@.subrange(i as int, e as int));
        if !is_octet(cs, i, e) {
            return false;
        }
        if e >= to {
            return parts == 1;
        }
        if parts == 1 {
            return false;
        }
        assert(s.skip(e - i + 1) =~= cs@.subrange(e as int + 1, to as int));
        parts = parts - 1;
        i = e + 1;
    }
}

/// Index of the first `c` in `cs[from..to]`, or `to`.
fn find_char(cs: &Vec<char>, from: usize, to: usize, c: char) -> (r: usize)
    requires
        from <= to <= cs@.len(),
    ensures
        r == from + first_of(cs@.subrange(from as int, to as int), c),
        r <= to,
{
    let mut i: usize = from;
    while i < to && cs[i] != c
        invariant
            from <= i <= to <= cs@.len(),
            first_of(cs@.subrange(from as int, to as int), c) == (i - from) + first_of(
                cs@.subrange(i as int, to as int),
                c,
            ),
        decreases to - i,
    {
        assert(cs@.subrange(i as int, to as int).drop_first() =~= cs@.subrange(i as int + 1, to as int));
        i = i + 1;
    }
    proof {
        lemma_first_of_bound(cs@.subrange(i as int, to as int), c);
    }
    i
}

/// `hex_group` of `cs[from..to]`.
fn is_hex_group(cs: &Vec<char>, from: usize, to: usize) -> (r: bool)
    requires
        from <= to <= cs@.len(),
    ensures
        r == hex_group(cs@.subrange(from as int, to as int)),
{
    if to - from < 1 || to - from > 4 {
        return false;
    }
    let mut i: usize = from;
    while i < to
        invariant
            from <= i <= to <= cs@.len(),
            forall|j: int| from <= j < i ==> is_hex(#[trigger] cs@[j]),
        decreases to - i,
    {
        let c = cs[i];
        if !(('0' <= c && c <= '9') || ('a' <= c && c <= 'f') || ('A' <= c && c <= 'F')) {
            assert(cs@.subrange(from as int, to as int)[i - from] == c);
            return false;
        }
        i = i + 1;
    }
    assert forall|j: int| 0 <= j < to - from implies is_hex(#[trigger] cs@.subrange(from as int, to as int)[j]) by {
        assert(cs@.subrange(from as int, to as int)[j] == cs@[from + j]);
    }
    true
}

/// `n + a` where `o` holds `n`.
pub open spec fn shifted(o: Option<nat>, a: nat) -> Option<nat> {
    match o {
        Some(n) => Some(n + a),
        None => None,
    }
}

/// `units` of `cs[from..to]`.
fn units_of(cs: &Vec<char>, from: usize, to: usize, v4_last: bool) -> (r: Option<usize>)
    requires
        from <= to <= cs@.len(),
    ensures
        match units(cs@.subrange(from as int, to as int), v4_last) {
            Some(n) => r matches Some(x) && x as nat == n,
            None => r is None,
        },
{
    let mut i: usize = from;
    let mut acc: usize = 0;
    loop
        invariant
            from <= i <= to <= cs@.len(),
            2 * acc <= i - from,
            units(cs@.subrange(from as int, to as int), v4_last) == shifted(
                units(cs@.subrange(i as int, to as int), v4_last),
                acc as nat,
            ),
        decreases to - i,
    {
        let e = find_char(cs, i, to, ':');
        let ghost s = cs@.subrange(i as int, to as int);
        assert(s.take(e - i) =~= cs@.subrange(i as int, e as int));
        if e >= to {
            if is_hex_group(cs, i, e) {
                return Some(acc + 1);
            } else if v4_last && is_ipv4(cs, i, e) {
                return Some(acc + 2);
            } else {
                return None;
            }
        }
        if !is_hex_group(cs, i, e) {
            return None;
        }
        assert(s.skip(e - i + 1) =~= cs@.subrange(e as int + 1, to as int));
        acc = acc + 1;
        i = e + 1;
    }
}

/// Position of the first `::` in `cs[from..to]`.
fn find_double_colon(cs: &Vec<char>, from: usize, to: usize) -> (r: Option<usize>)
    requires
        from <= to <= cs@.len(),
    ensures
        match double_colon(cs@.subrange(from as int, to as int)) {
            Some(d) => r == Some((from + d) as usize) && from + d + 2 <= to,
            None => r is None,
        },
{
    let mut i: usize = from;
    while to - i >= 2 && !(cs[i] == ':' && cs[i + 1] == ':')
        invariant
            from <= i <= to <= cs@.len(),
            double_colon(cs@.subrange(from as int, to as int)) == shifted(
                double_colon(cs@.subrange(i as int, to as int)),
                (i - from) as nat,
            ),
        decreases to - i,
    {
        assert(cs@.subrange(i as int, to as int).drop_first() =~= cs@.subrange(i as int + 1, to as int));
        i = i + 1;
    }
    if to - i >= 2 {
        Some(i)
    } else {
        None
    }
}

/// `ipv6_addr_text` of `cs[from..to]`.
fn is_ipv6_addr(cs: &Vec<char>, from: usize, to: usize) -> (r: bool)
    requires
        from <= to <= cs@.len(),
    ensures
        r == ipv6_addr_text(cs@.subrange(from as int, to as int)),
{
    let ghost s = cs@.subrange(from as int, to as int);
    match find_double_colon(cs, from, to) {
        None => match units_of(cs, from, to, true) {
            Some(n) => n == 8,
            None => false,
        },
        Some(d) => {
            assert(s.take(d - from) =~= cs@.subrange(from as int, d as int));
            assert(s.skip(d - from + 2) =~= cs@.subrange(d as int + 2, to as int));
            let k = if d == from {
                Some(0usize)
            } else {
                units_of(cs, from, d, false)
            };
            let m = if d + 2 == to {
                Some(0usize)
            } else {
                units_of(cs, d + 2, to, true)
            };
            match (k, m) {
                (Some(k), Some(m)) => k <= 7 && m <= 7 - k,
                _ => false,
            }
        },
    }
}

/// `ipv6_text` of `cs[from..to]`.
fn is_ipv6(cs: &Vec<char>, from: usize, to: usize) -> (r: bool)
    requires
        from <= to <= cs@.len(),
    ensures
        r == ipv6_text(cs@.subrange(from as int, to as int)),
{
    if to - from < 2 || cs[from] != '[' || cs[to - 1] != ']' {
        return false;
    }
    let a = from + 1;
    let b = to - 1;
    let ghost inner = cs@.subrange(from as int, to as int).subrange(1, (to - from) - 1);
    assert(inner =~= cs@.subrange(a as int, b as int));
    let p = find_char(cs, a, b, '%');
    assert(inner.take(p - a) =~= cs@.subrange(a as int, p as int));
    if !is_ipv6_addr(cs, a, p) {
        return false;
    }
    if p >= b {
        return true;
    }
    assert(inner.skip(p - a + 1) =~= cs@.subrange(p as int + 1, b as int));
    b - (p + 1) >= 1 && digits_within(cs, p + 1, b, 4294967295)
}

/// The port of a `host:port` address, if `s` is one.
pub fn port_of_address(s: &Vec<char>) -> (r: Option<u16>)
    ensures
        r == address_port(s@),
{
    let n = s.len();
    let mut k: usize = n;
    assert(s@.take(n as int) =~= s@);
    while k > 0 && s[k - 1] != ':'
        invariant
            k <= n == s@.len(),
            last_colon(s@) == last_colon(s@.take(k as int)),
        decreases k,
    {
        assert(s@.take(k as int).drop_last() =~= s@.take(k - 1));
        k = k - 1;
    }
    assert(s@.take(n as int) =~= s@);
    if k == 0 {
        return None;
    }
    let c = k - 1;
    assert(last_colon(s@.take(k as int)) == Some(c as nat));
    assert(s@.take(c as int) =~= s@.subrange(0, c as int));
    assert(s@.skip(c as int + 1) =~= s@.subrange(c as int + 1, n as int));
    if !(is_ipv4(s, 0, c) || is_ipv6(s, 0, c)) {
        return None;
    }
    if n - k < 1 {
        return None;
    }
    if !digits_within(s, k, n, 65535) {
        return None;
    }
    let mut v: u32 = 0;
    let mut i: usize = k;
    while i < n
        invariant
            k <= i <= n == s@.len(),
            all_digits(s@.subrange(k as int, n as int)),
            digits_value(s@.subrange(k as int, n as int)) <= 65535,
            v == digits_value(s@.subrange(k as int, i as int)),
            v <= 65535,
        decreases n - i,
    {
        assert(s@.subrange(k as int, i as int + 1).drop_last() =~= s@.subrange(k as int, i as int));
        assert(is_digit(s@.subrange(k as int, n as int)[i - k]));
        proof {
            lemma_digits_prefix(s@.subrange(k as int, n as int), i - k + 1);
            assert(s@.subrange(k as int, n as int).take(i - k + 1) =~= s@.subrange(k as int, i as int + 1));
        }
        v = v * 10 + ((s[i] as u32) - 48);
        i = i + 1;
    }
    Some(v as u16)
}

} // verus!
