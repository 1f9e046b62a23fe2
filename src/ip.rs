//! The IPv6 address grammar of bracketed hosts.
use crate::iri::{idx_of, is_digit, is_hex, lemma_idx_of};
use vstd::prelude::*;
use vstd::string::*;

verus! {

/// Position `i` of the hex part of an address: a hex digit or `:`, and not the
/// start of a run of five hex digits.
pub open spec fn v6_char_ok(u: Seq<char>, i: int) -> bool {
    &&& is_hex(u[i]) || u[i] == ':'
    &&& !(i + 4 < u.len() && is_hex(u[i]) && is_hex(u[i + 1]) && is_hex(u[i + 2]) && is_hex(
        u[i + 3],
    ) && is_hex(u[i + 4]))
}

/// The number of places where `::` occurs.
pub open spec fn double_colons(u: Seq<char>) -> nat
    decreases u.len(),
{
    if u.len() < 2 {
        0
    } else {
        double_colons(u.drop_last()) + if u[u.len() - 2] == ':' && u.last() == ':' {
            1nat
        } else {
            0nat
        }
    }
}

/// The number of hex groups: hex digits at the start or after a `:`.
pub open spec fn hex_groups(u: Seq<char>) -> nat
    decreases u.len(),
{
    if u.len() == 0 {
        0
    } else {
        hex_groups(u.drop_last()) + if is_hex(u.last()) && (u.len() == 1 || u[u.len() - 2]
            == ':') {
            1nat
        } else {
            0nat
        }
    }
}

/// Groups of one to four hex digits separated by `:`, at most one `::` standing
/// for one or more missing groups, `slots` groups in all. With `open_end` the
/// text ends in the `:` before an IPv4 address.
pub open spec fn hex_part_ok(u: Seq<char>, slots: nat, open_end: bool) -> bool {
    &&& u.len() > 0
    &&& forall|i: int| 0 <= i < u.len() ==> #[trigger] v6_char_ok(u, i)
    &&& double_colons(u) <= 1
    &&& u[0] == ':' ==> u.len() > 1 && u[1] == ':'
    &&& if open_end {
        u.last() == ':'
    } else {
        u.last() == ':' ==> u.len() > 1 && u[u.len() - 2] == ':'
    }
    &&& if double_colons(u) == 0 {
        hex_groups(u) == slots
    } else {
        hex_groups(u) < slots
    }
}

pub open spec fn digit_value(c: char) -> int {
    c as int - '0' as int
}

/// Position `i` of a dotted-decimal address: digits and dots, no empty part, no
/// leading zero, at most three digits per part, and no part above 255.
pub open spec fn v4_char_ok(t: Seq<char>, i: int) -> bool {
    &&& is_digit(t[i]) || t[i] == '.'
    &&& t[i] == '.' ==> 0 < i && i + 1 < t.len() && t[i + 1] != '.'
    &&& (t[i] == '0' && (i == 0 || t[i - 1] == '.')) ==> (i + 1 == t.len() || t[i + 1] == '.')
    &&& !(i + 3 < t.len() && is_digit(t[i]) && is_digit(t[i + 1]) && is_digit(t[i + 2])
        && is_digit(t[i + 3]))
    &&& (i + 2 < t.len() && is_digit(t[i]) && is_digit(t[i + 1]) && is_digit(t[i + 2]))
        ==> digit_value(t[i]) * 100 + digit_value(t[i + 1]) * 10 + digit_value(t[i + 2]) <= 255
}

/// The number of dots.
pub open spec fn dots(t: Seq<char>) -> nat
    decreases t.len(),
{
    if t.len() == 0 {
        0
    } else {
        dots(t.drop_last()) + if t.last() == '.' {
            1nat
        } else {
            0nat
        }
    }
}

/// An IPv4 address: four decimal parts from 0 to 255.
pub open spec fn valid_ipv4(t: Seq<char>) -> bool {
    t.len() > 0 && dots(t) == 3 && forall|i: int| 0 <= i < t.len() ==> #[trigger] v4_char_ok(t, i)
}

/// The last index of `c` in `t`, or -1.
pub open spec fn last_idx(t: Seq<char>, c: char) -> int
    decreases t.len(),
{
    if t.len() == 0 {
        -1
    } else if t.last() == c {
        t.len() - 1
    } else {
        last_idx(t.drop_last(), c)
    }
}

proof fn lemma_last_idx(t: Seq<char>, c: char)
    ensures
        -1 <= last_idx(t, c) < t.len(),
        last_idx(t, c) >= 0 ==> t[last_idx(t, c)] == c,
    decreases t.len(),
{
    if t.len() > 0 && t.last() != c {
        lemma_last_idx(t.drop_last(), c);
    }
}

/// An IPv6 address: eight hex groups, or fewer with `::`, the last two of which
/// may be written as an IPv4 address.
pub open spec fn valid_ipv6(t: Seq<char>) -> bool {
    let k = last_idx(t, ':');
    if k < 0 {
        false
    } else if idx_of(t, k + 1, t.len() as int, '.') < t.len() {
        hex_part_ok(t.subrange(0, k + 1), 6, true) && valid_ipv4(t.subrange(k + 1, t.len() as int))
    } else {
        hex_part_ok(t, 8, false)
    }
}

fn is_hex_char(c: char) -> (r: bool)
    ensures
        r == is_hex(c),
{
    ('0' <= c && c <= '9') || ('a' <= c && c <= 'f') || ('A' <= c && c <= 'F')
}

fn is_digit_char(c: char) -> (r: bool)
    ensures
        r == is_digit(c),
{
    '0' <= c && c <= '9'
}

fn check_hex_part(s: &str, lo: usize, hi: usize, slots: usize, open_end: bool) -> (r: bool)
    requires
        lo <= hi <= s@.len(),
        slots <= 8,
    ensures
        r == hex_part_ok(s@.subrange(lo as int, hi as int), slots as nat, open_end),
{
    let ghost u = s@.subrange(lo as int, hi as int);
    let n = hi - lo;
    if n == 0 {
        return false;
    }
    let mut doubles: usize = 0;
    let mut groups: usize = 0;
    let mut i: usize = 0;
    assert(u.subrange(0, 0) =~= Seq::<char>::empty());
    while i < n
        invariant
            n == u.len(),
            u == s@.subrange(lo as int, hi as int),
            lo <= hi <= s@.len(),
            n == hi - lo,
            i <= n,
            doubles == double_colons(u.subrange(0, i as int)),
            groups == hex_groups(u.subrange(0, i as int)),
            groups <= i,
            doubles <= i,
            forall|j: int| 0 <= j < i ==> #[trigger] v6_char_ok(u, j),
        decreases n - i,
    {
        let c = s.get_char(lo + i);
        let hex = is_hex_char(c);
        if !(hex || c == ':') {
            assert(!v6_char_ok(u, i as int));
            return false;
        }
        if hex && n - i > 4 && is_hex_char(s.get_char(lo + i + 1)) && is_hex_char(
            s.get_char(lo + i + 2),
        ) && is_hex_char(s.get_char(lo + i + 3)) && is_hex_char(s.get_char(lo + i + 4)) {
            assert(!v6_char_ok(u, i as int));
            return false;
        }
        let after_colon = i > 0 && s.get_char(lo + i - 1) == ':';
        if c == ':' && after_colon {
            doubles = doubles + 1;
        }
        if hex && (i == 0 || after_colon) {
            groups = groups + 1;
        }
        proof {
            let p = u.subrange(0, i + 1);
            assert(p.drop_last() =~= u.subrange(0, i as int));
        }
        i = i + 1;
    }
    assert(u.subrange(0, n as int) =~= u);
    let first_ok = s.get_char(lo) != ':' || (n > 1 && s.get_char(lo + 1) == ':');
    let last = s.get_char(hi - 1);
    let end_ok = if open_end {
        last == ':'
    } else {
        last != ':' || (n > 1 && s.get_char(hi - 2) == ':')
    };
    let count_ok = if doubles == 0 {
        groups == slots
    } else {
        groups < slots
    };
    doubles <= 1 && first_ok && end_ok && count_ok
}

fn check_ipv4(s: &str, lo: usize, hi: usize) -> (r: bool)
    requires
        lo <= hi <= s@.len(),
    ensures
        r == valid_ipv4(s@.subrange(lo as int, hi as int)),
{
    let ghost t = s@.subrange(lo as int, hi as int);
    let n = hi - lo;
    if n == 0 {
        return false;
    }
    let mut count: usize = 0;
    let mut i: usize = 0;
    assert(t.subrange(0, 0) =~= Seq::<char>::empty());
    while i < n
        invariant
            n == t.len(),
            t == s@.subrange(lo as int, hi as int),
            lo <= hi <= s@.len(),
            n == hi - lo,
            i <= n,
            count == dots(t.subrange(0, i as int)),
            count <= i,
            forall|j: int| 0 <= j < i ==> #[trigger] v4_char_ok(t, j),
        decreases n - i,
    {
        let c = s.get_char(lo + i);
        let digit = is_digit_char(c);
        if !(digit || c == '.') {
            assert(!v4_char_ok(t, i as int));
            return false;
        }
        if c == '.' && !(i > 0 && n - i > 1 && s.get_char(lo + i + 1) != '.') {
            assert(!v4_char_ok(t, i as int));
            return false;
        }
        if c == '0' && (i == 0 || s.get_char(lo + i - 1) == '.') && !(n - i == 1 || s.get_char(
            lo + i + 1,
        ) == '.') {
            assert(!v4_char_ok(t, i as int));
            return false;
        }
        if digit && n - i > 2 && is_digit_char(s.get_char(lo + i + 1)) && is_digit_char(
            s.get_char(lo + i + 2),
        ) {
            if n - i > 3 && is_digit_char(s.get_char(lo + i + 3)) {
                assert(!v4_char_ok(t, i as int));
                return false;
            }
            let d0 = (c as u32 - '0' as u32) as u32;
            let d1 = (s.get_char(lo + i + 1) as u32 - '0' as u32) as u32;
            let d2 = (s.get_char(lo + i + 2) as u32 - '0' as u32) as u32;
            if d0 * 100 + d1 * 10 + d2 > 255 {
                assert(!v4_char_ok(t, i as int));
                return false;
            }
        }
        assert(v4_char_ok(t, i as int));
        if c == '.' {
            count = count + 1;
        }
        proof {
            let p = t.subrange(0, i + 1);
            assert(p.drop_last() =~= t.subrange(0, i as int));
        }
        i = i + 1;
    }
    assert(t.subrange(0, n as int) =~= t);
    count == 3
}

/// Whether `s[lo..hi]` is an IPv6 address.
pub fn check_ipv6(s: &str, lo: usize, hi: usize) -> (r: bool)
    requires
        lo <= hi <= s@.len(),
    ensures
        r == valid_ipv6(s@.subrange(lo as int, hi as int)),
{
    let ghost t = s@.subrange(lo as int, hi as int);
    let mut k = hi;
    assert(s@.subrange(lo as int, k as int) =~= t);
    while k > lo && s.get_char(k - 1) != ':'
        invariant
            lo <= k <= hi <= s@.len(),
            t == s@.subrange(lo as int, hi as int),
            last_idx(s@.subrange(lo as int, k as int), ':') == last_idx(t, ':'),
        decreases k,
    {
        proof {
            let p = s@.subrange(lo as int, k as int);
            assert(p.drop_last() =~= s@.subrange(lo as int, k - 1));
        }
        k = k - 1;
    }
    if k == lo {
        assert(s@.subrange(lo as int, k as int).len() == 0);
        return false;
    }
    let ghost kk = k - 1 - lo;
    assert(s@.subrange(lo as int, k as int).last() == s@[k - 1]);
    assert(last_idx(t, ':') == kk);
    proof {
        lemma_idx_of(t, kk + 1, t.len() as int, '.');
    }
    let mut j = k;
    let mut has_dot = false;
    while j < hi
        invariant
            k <= j <= hi <= s@.len(),
            lo < k,
            t == s@.subrange(lo as int, hi as int),
            kk == k - 1 - lo,
            kk + 1 <= idx_of(t, kk + 1, t.len() as int, '.') <= t.len(),
            forall|m: int| kk + 1 <= m < idx_of(t, kk + 1, t.len() as int, '.') ==> t[m] != '.',
            idx_of(t, kk + 1, t.len() as int, '.') < t.len() ==> t[idx_of(t, kk + 1, t.len() as int, '.')] == '.',
            !has_dot ==> forall|m: int| k <= m < j ==> s@[m] != '.',
            has_dot ==> idx_of(t, kk + 1, t.len() as int, '.') < t.len(),
        decreases hi - j,
    {
        if s.get_char(j) == '.' {
            has_dot = true;
            assert(t[j - lo] == '.');
        }
        j = j + 1;
    }
    if has_dot {
        assert(s@.subrange(lo as int, hi as int).subrange(0, kk + 1) =~= s@.subrange(lo as int, k as int));
        assert(s@.subrange(lo as int, hi as int).subrange(kk + 1, t.len() as int) =~= s@.subrange(k as int, hi as int));
        check_hex_part(s, lo, k, 6, true) && check_ipv4(s, k, hi)
    } else {
        assert(idx_of(t, kk + 1, t.len() as int, '.') == t.len() || s@[lo + idx_of(t, kk + 1, t.len() as int, '.')] == '.');
        check_hex_part(s, lo, hi, 8, false)
    }
}

/// Every character of an IPv6 address is a hex digit, `:` or `.`.
pub proof fn lemma_ipv6_chars(t: Seq<char>)
    requires
        valid_ipv6(t),
    ensures
        forall|i: int| 0 <= i < t.len() ==> (is_hex(#[trigger] t[i]) || t[i] == ':' || t[i] == '.'),
{
    let k = last_idx(t, ':');
    lemma_last_idx(t, ':');
    if idx_of(t, k + 1, t.len() as int, '.') < t.len() {
        let u = t.subrange(0, k + 1);
        let v = t.subrange(k + 1, t.len() as int);
        assert forall|i: int| 0 <= i < t.len() implies (is_hex(#[trigger] t[i]) || t[i] == ':' || t[i] == '.') by {
            if i <= k {
                assert(v6_char_ok(u, i));
                assert(u[i] == t[i]);
            } else {
                assert(v4_char_ok(v, i - k - 1));
                assert(v[i - k - 1] == t[i]);
            }
        }
    } else {
        assert forall|i: int| 0 <= i < t.len() implies (is_hex(#[trigger] t[i]) || t[i] == ':' || t[i] == '.') by {
            assert(v6_char_ok(t, i));
        }
    }
}

} // verus!
