//! Syntactic validation of a user-supplied endpoint string: a host part —
//! a dotted-quad IPv4 address or a hostname of separator-joined labels —
//! followed by a mandatory `:<port>` suffix. Purely syntactic: no name
//! resolution, no reachability check.
//!
//! An input whose octets overflow the IPv4 range (such as `999`) can still
//! pass as a hostname: the two shapes are a union, a deliberately
//! permissive policy.
use vstd::prelude::*;

verus! {

/// A decimal digit.
pub open spec fn is_digit_char(c: char) -> bool {
    '0' as u32 <= c as u32 && c as u32 <= '9' as u32
}

/// An alphanumeric character, the only kind a hostname label may hold.
pub open spec fn is_label_char(c: char) -> bool {
    ||| is_digit_char(c)
    ||| 'a' as u32 <= c as u32 && c as u32 <= 'z' as u32
    ||| 'A' as u32 <= c as u32 && c as u32 <= 'Z' as u32
}

/// A character that may join two hostname labels.
pub open spec fn is_separator_char(c: char) -> bool {
    c == '.' || c == '-' || c == '_'
}

/// The numeric value of a digit character.
pub open spec fn digit_val(c: char) -> int {
    c as u32 - '0' as u32
}

/// The base-10 value of a digit string.
pub open spec fn digits_val(s: Seq<char>) -> int
    decreases s.len(),
{
    if s.len() == 0 {
        0
    } else {
        digits_val(s.drop_last()) * 10 + digit_val(s.last())
    }
}

/// Position `i` carries the address's port suffix: a colon followed by one
/// or more digits running to the end of the string.
pub open spec fn port_split_at(s: Seq<char>, i: int) -> bool {
    &&& 0 <= i
    &&& i + 1 < s.len()
    &&& s[i] == ':'
    &&& forall|j: int| i < j < s.len() ==> is_digit_char(s[j])
}

/// The string ends in a `:<digits>` suffix.
pub open spec fn has_port_suffix(s: Seq<char>) -> bool {
    exists|i: int| port_split_at(s, i)
}

/// The port digits after the colon at `i` name a port in `[1, 65535]`.
pub open spec fn port_value_ok(s: Seq<char>, i: int) -> bool {
    1 <= digits_val(s.subrange(i + 1, s.len() as int)) <= 65535
}

/// The string ends in a `:<digits>` suffix naming a port in `[1, 65535]`.
pub open spec fn has_valid_port(s: Seq<char>) -> bool {
    exists|i: int| port_split_at(s, i) && port_value_ok(s, i)
}

/// An IPv4 octet: one to three digits whose value fits in a byte.
pub open spec fn is_octet(s: Seq<char>) -> bool {
    &&& 1 <= s.len() <= 3
    &&& (forall|j: int| 0 <= j < s.len() ==> is_digit_char(s[j]))
    &&& digits_val(s) <= 255
}

/// The whole string is a dotted-quad IPv4 address followed by a port
/// suffix, split by dots at `i1`, `i2`, `i3` and by the colon at `i4`.
pub open spec fn ipv4_split(s: Seq<char>, i1: int, i2: int, i3: int, i4: int) -> bool {
    &&& 0 <= i1 < i2 < i3 < i4
    &&& s[i1] == '.' && s[i2] == '.' && s[i3] == '.'
    &&& port_split_at(s, i4)
    &&& is_octet(s.subrange(0, i1))
    &&& is_octet(s.subrange(i1 + 1, i2))
    &&& is_octet(s.subrange(i2 + 1, i3))
    &&& is_octet(s.subrange(i3 + 1, i4))
}

/// The string is a dotted-quad IPv4 address with a `:<digits>` suffix.
pub open spec fn ipv4_address_spec(s: Seq<char>) -> bool {
    exists|i1: int, i2: int, i3: int, i4: int| ipv4_split(s, i1, i2, i3, i4)
}

/// `h` is a hostname: one or more non-empty alphanumeric labels joined by
/// single separators, so it starts and ends on a label character and never
/// holds two adjacent separators.
pub open spec fn hostname_host(h: Seq<char>) -> bool {
    &&& h.len() > 0
    &&& (forall|j: int| 0 <= j < h.len() ==> is_label_char(h[j]) || is_separator_char(h[j]))
    &&& is_label_char(h[0])
    &&& is_label_char(h[h.len() - 1])
    &&& (forall|j: int|
        0 <= j < h.len() - 1 ==> !(is_separator_char(#[trigger] h[j]) && is_separator_char(
            h[j + 1],
        )))
}

/// The string is a hostname with a `:<digits>` suffix.
pub open spec fn hostname_spec(s: Seq<char>) -> bool {
    exists|i: int| port_split_at(s, i) && hostname_host(s.subrange(0, i))
}

/// A valid endpoint string: a port suffix naming a port in `[1, 65535]`,
/// preceded by either IPv4 or hostname shape. The two shapes are a union:
/// an address that fails the strict IPv4 numeric shape may still pass as a
/// hostname.
pub open spec fn valid_socket_address_spec(s: Seq<char>) -> bool {
    &&& has_valid_port(s)
    &&& (ipv4_address_spec(s) || hostname_spec(s))
}

/// If the string has a port suffix at `m`, any hostname reading of it
/// must place its colon at `m` too.
proof fn lemma_hostname_pins(s: Seq<char>, m: int)
    requires
        port_split_at(s, m),
        hostname_spec(s),
    ensures
        hostname_host(s.subrange(0, m)),
{
    let i = choose|i: int| port_split_at(s, i) && hostname_host(s.subrange(0, i));
    lemma_port_split_unique(s, i, m);
}

proof fn lemma_port_split_unique(s: Seq<char>, i: int, j: int)
    requires
        port_split_at(s, i),
        port_split_at(s, j),
    ensures
        i == j,
{
    if i < j {
        assert(is_digit_char(s[j]));
    }
    if j < i {
        assert(is_digit_char(s[i]));
    }
}

/// In a digit run that starts at `a` and stops at the non-digit at `p`,
/// the only place a dot preceded by digits-from-`a` can sit is `p` itself.
proof fn lemma_dot_position(s: Seq<char>, a: int, p: int, i: int)
    requires
        0 <= a <= p < s.len(),
        forall|j: int| a <= j < p ==> is_digit_char(s[j]),
        !is_digit_char(s[p]),
        a <= i < s.len(),
        s[i] == '.',
        forall|j: int| a <= j < i ==> is_digit_char(s[j]),
    ensures
        i == p,
{
    if i < p {
        assert(is_digit_char(s[i]));
    }
    if p < i {
        assert(is_digit_char(s[p]));
    }
}

proof fn lemma_digits_val_nonneg(s: Seq<char>)
    requires
        forall|j: int| 0 <= j < s.len() ==> is_digit_char(s[j]),
    ensures
        digits_val(s) >= 0,
    decreases s.len(),
{
    if s.len() > 0 {
        lemma_digits_val_nonneg(s.drop_last());
    }
}

proof fn lemma_digits_val_small(s: Seq<char>)
    requires
        forall|j: int| 0 <= j < s.len() ==> is_digit_char(s[j]),
        s.len() <= 3,
    ensures
        0 <= digits_val(s) <= 999,
        s.len() <= 2 ==> digits_val(s) <= 99,
        s.len() <= 1 ==> digits_val(s) <= 9,
    decreases s.len(),
{
    if s.len() > 0 {
        lemma_digits_val_small(s.drop_last());
    }
}

/// Appending further digits never shrinks the value.
proof fn lemma_digits_val_prefix_le(s: Seq<char>, a: int, j: int, n: int)
    requires
        0 <= a <= j <= n <= s.len(),
        forall|k: int| a <= k < n ==> is_digit_char(s[k]),
    ensures
        digits_val(s.subrange(a, j)) <= digits_val(s.subrange(a, n)),
    decreases n - j,
{
    if j < n {
        lemma_digits_val_prefix_le(s, a, j + 1, n);
        let pre = s.subrange(a, j);
        let ext = s.subrange(a, j + 1);
        assert(ext.drop_last() =~= pre);
        lemma_digits_val_nonneg(pre);
    }
}

fn is_digit(c: char) -> (r: bool)
    ensures
        r == is_digit_char(c),
{
    let u = c as u32;
    '0' as u32 <= u && u <= '9' as u32
}

fn is_label(c: char) -> (r: bool)
    ensures
        r == is_label_char(c),
{
    let u = c as u32;
    ('0' as u32 <= u && u <= '9' as u32) || ('a' as u32 <= u && u <= 'z' as u32) || ('A' as u32
        <= u && u <= 'Z' as u32)
}

fn is_separator(c: char) -> (r: bool)
    ensures
        r == is_separator_char(c),
{
    c == '.' || c == '-' || c == '_'
}

/// Finds the unique position of a `:<digits>` suffix, if the string has
/// one.
fn find_port_split(s: &str) -> (r: Option<usize>)
    ensures
        match r {
            Some(i) => port_split_at(s@, i as int),
            None => !has_port_suffix(s@),
        },
{
    let n = s.unicode_len();
    let mut k = n;
    loop
        invariant_except_break
            k <= n,
            n == s@.len(),
            forall|j: int| k <= j < n ==> is_digit_char(s@[j]),
        ensures
            k <= n,
            n == s@.len(),
            forall|j: int| k <= j < n ==> is_digit_char(s@[j]),
            k == 0 || !is_digit_char(s@[k - 1]),
        decreases k,
    {
        if k == 0 {
            break;
        }
        let c = s.get_char(k - 1);
        if !is_digit(c) {
            break;
        }
        k = k - 1;
    }
    if k == n {
        proof {
            assert forall|i: int| !port_split_at(s@, i) by {
                if port_split_at(s@, i) {
                    assert(is_digit_char(s@[n - 1]));
                }
            }
        }
        return None;
    }
    if k == 0 {
        proof {
            assert forall|i: int| !port_split_at(s@, i) by {
                if port_split_at(s@, i) {
                    assert(is_digit_char(s@[i]));
                }
            }
        }
        return None;
    }
    let c = s.get_char(k - 1);
    if c == ':' {
        Some(k - 1)
    } else {
        proof {
            assert forall|i: int| !port_split_at(s@, i) by {
                if port_split_at(s@, i) {
                    if i < k - 1 {
                        assert(is_digit_char(s@[k - 1]));
                    }
                    if i > k - 1 {
                        assert(is_digit_char(s@[i]));
                    }
                }
            }
        }
        None
    }
}

/// The string ends in a `:<digits>` suffix (at least one digit after the
/// last colon).
pub fn port_suffix_matches(s: &str) -> (r: bool)
    ensures
        r == has_port_suffix(s@),
{
    match find_port_split(s) {
        Some(_) => true,
        None => false,
    }
}

/// The end of the digit run that starts at `start`, looking no further
/// than `end`.
fn digit_run_end(s: &str, start: usize, end: usize) -> (r: usize)
    requires
        start <= end <= s@.len(),
    ensures
        start <= r <= end,
        forall|j: int| start <= j < r ==> is_digit_char(s@[j]),
        r < end ==> !is_digit_char(s@[r as int]),
{
    let mut j = start;
    loop
        invariant_except_break
            start <= j <= end,
            end <= s@.len(),
            forall|k: int| start <= k < j ==> is_digit_char(s@[k]),
        ensures
            start <= j <= end,
            forall|k: int| start <= k < j ==> is_digit_char(s@[k]),
            j < end ==> !is_digit_char(s@[j as int]),
        decreases end - j,
    {
        if j == end {
            break;
        }
        let c = s.get_char(j);
        if !is_digit(c) {
            break;
        }
        j = j + 1;
    }
    j
}

/// The value of the (at most three) digits in `s[start, end)`.
fn octet_value(s: &str, start: usize, end: usize) -> (v: u32)
    requires
        start <= end <= s@.len(),
        end - start <= 3,
        forall|j: int| start <= j < end ==> is_digit_char(s@[j]),
    ensures
        v as int == digits_val(s@.subrange(start as int, end as int)),
{
    let mut v: u32 = 0;
    let mut j = start;
    while j < end
        invariant
            start <= j <= end <= s@.len(),
            end - start <= 3,
            forall|k: int| start <= k < end ==> is_digit_char(s@[k]),
            v as int == digits_val(s@.subrange(start as int, j as int)),
        decreases end - j,
    {
        proof {
            lemma_digits_val_small(s@.subrange(start as int, j as int));
        }
        let c = s.get_char(j);
        let d = c as u32 - '0' as u32;
        v = v * 10 + d;
        proof {
            let pre = s@.subrange(start as int, j as int);
            let ext = s@.subrange(start as int, j + 1int);
            assert(ext.drop_last() =~= pre);
            assert(ext.last() == s@[j as int]);
        }
        j = j + 1;
    }
    v
}

/// The string matches the strict dotted-quad shape with a port suffix:
/// four octets, each one to three digits valued at most 255, then
/// `:<digits>`.
pub fn ipv4_address_matches(s: &str) -> (r: bool)
    ensures
        r == ipv4_address_spec(s@),
{
    let m = match find_port_split(s) {
        None => {
            proof {
                assert forall|i1: int, i2: int, i3: int, i4: int|
                    !ipv4_split(s@, i1, i2, i3, i4) by {
                    if ipv4_split(s@, i1, i2, i3, i4) {
                        assert(port_split_at(s@, i4));
                    }
                }
            }
            return false;
        },
        Some(m) => m,
    };
    // In any dotted-quad reading of the string, the colon must sit at `m`
    // and each dot must close the maximal digit run that starts after the
    // previous dot; so the dots are pinned and each check below refutes
    // every candidate split at once.
    let p1 = digit_run_end(s, 0, m);
    proof {
        assert(!is_digit_char(s@[m as int]));
    }
    proof {
        assert forall|i1: int, i2: int, i3: int, i4: int|
            ipv4_split(s@, i1, i2, i3, i4) implies i4 == m as int && i1 == p1 as int by {
            lemma_port_split_unique(s@, i4, m as int);
            let o = s@.subrange(0, i1);
            assert forall|j: int| 0 <= j < i1 implies is_digit_char(s@[j]) by {
                assert(is_digit_char(o[j]));
            }
            if p1 < m {
                lemma_dot_position(s@, 0, p1 as int, i1);
            } else {
                lemma_dot_position(s@, 0, m as int, i1);
            }
        }
    }
    if p1 >= m || p1 < 1 || p1 > 3 {
        return false;
    }
    if s.get_char(p1) != '.' {
        return false;
    }
    if octet_value(s, 0, p1) > 255 {
        return false;
    }
    let p2 = digit_run_end(s, p1 + 1, m);
    proof {
        assert forall|i1: int, i2: int, i3: int, i4: int|
            ipv4_split(s@, i1, i2, i3, i4) implies i2 == p2 as int by {
            assert(i4 == m as int && i1 == p1 as int);
            let o = s@.subrange(i1 + 1, i2);
            assert forall|j: int| i1 + 1 <= j < i2 implies is_digit_char(s@[j]) by {
                assert(is_digit_char(o[j - (i1 + 1)]));
            }
            if p2 < m {
                lemma_dot_position(s@, p1 + 1, p2 as int, i2);
            } else {
                lemma_dot_position(s@, p1 + 1, m as int, i2);
            }
        }
    }
    if p2 >= m || p2 - (p1 + 1) < 1 || p2 - (p1 + 1) > 3 {
        return false;
    }
    if s.get_char(p2) != '.' {
        return false;
    }
    if octet_value(s, p1 + 1, p2) > 255 {
        return false;
    }
    let p3 = digit_run_end(s, p2 + 1, m);
    proof {
        assert forall|i1: int, i2: int, i3: int, i4: int|
            ipv4_split(s@, i1, i2, i3, i4) implies i3 == p3 as int by {
            assert(i4 == m as int && i1 == p1 as int && i2 == p2 as int);
            let o = s@.subrange(i2 + 1, i3);
            assert forall|j: int| i2 + 1 <= j < i3 implies is_digit_char(s@[j]) by {
                assert(is_digit_char(o[j - (i2 + 1)]));
            }
            if p3 < m {
                lemma_dot_position(s@, p2 + 1, p3 as int, i3);
            } else {
                lemma_dot_position(s@, p2 + 1, m as int, i3);
            }
        }
    }
    if p3 >= m || p3 - (p2 + 1) < 1 || p3 - (p2 + 1) > 3 {
        return false;
    }
    if s.get_char(p3) != '.' {
        return false;
    }
    if octet_value(s, p2 + 1, p3) > 255 {
        return false;
    }
    let p4 = digit_run_end(s, p3 + 1, m);
    proof {
        assert forall|i1: int, i2: int, i3: int, i4: int|
            ipv4_split(s@, i1, i2, i3, i4) implies i4 == p4 as int by {
            assert(i4 == m as int && i3 == p3 as int);
            let o = s@.subrange(i3 + 1, i4);
            assert forall|j: int| i3 + 1 <= j < i4 implies is_digit_char(s@[j]) by {
                assert(is_digit_char(o[j - (i3 + 1)]));
            }
            if p4 < m {
                assert(is_digit_char(s@[p4 as int]));
            }
        }
    }
    if p4 != m || p4 - (p3 + 1) < 1 || p4 - (p3 + 1) > 3 {
        return false;
    }
    if octet_value(s, p3 + 1, p4) > 255 {
        return false;
    }
    proof {
        assert(s@.subrange(0, p1 as int).len() == p1);
        assert(ipv4_split(s@, p1 as int, p2 as int, p3 as int, m as int));
    }
    true
}

/// The string matches the hostname shape with a port suffix: labels
/// joined by single separators, then `:<digits>`.
pub fn hostname_matches(s: &str) -> (r: bool)
    ensures
        r == hostname_spec(s@),
{
    let m = match find_port_split(s) {
        None => {
            proof {
                assert forall|i: int| !(port_split_at(s@, i) && hostname_host(
                    s@.subrange(0, i),
                )) by {}
            }
            return false;
        },
        Some(m) => m,
    };
    let ghost h = s@.subrange(0, m as int);
    if m == 0 {
        proof {
            if hostname_spec(s@) {
                lemma_hostname_pins(s@, m as int);
            }
        }
        return false;
    }
    let c0 = s.get_char(0);
    if !is_label(c0) {
        proof {
            if hostname_spec(s@) {
                lemma_hostname_pins(s@, m as int);
                assert(h[0] == s@[0]);
            }
        }
        return false;
    }
    let mut i: usize = 1;
    let mut prev_sep = false;
    while i < m
        invariant
            1 <= i <= m,
            m < s@.len(),
            port_split_at(s@, m as int),
            h == s@.subrange(0, m as int),
            h.len() == m,
            forall|j: int| 0 <= j < i ==> is_label_char(h[j]) || is_separator_char(h[j]),
            forall|j: int|
                0 <= j < i - 1 ==> !(is_separator_char(#[trigger] h[j]) && is_separator_char(
                    h[j + 1],
                )),
            prev_sep == is_separator_char(h[i - 1]),
            is_label_char(h[0]),
        decreases m - i,
    {
        let c = s.get_char(i);
        let lab = is_label(c);
        let sep = is_separator(c);
        if !lab && !sep {
            proof {
                if hostname_spec(s@) {
                    lemma_hostname_pins(s@, m as int);
                    assert(h[i as int] == s@[i as int]);
                }
            }
            return false;
        }
        if sep && prev_sep {
            proof {
                if hostname_spec(s@) {
                    lemma_hostname_pins(s@, m as int);
                    assert(h[i as int] == s@[i as int]);
                    assert(is_separator_char(h[i - 1]) && is_separator_char(h[i as int]));
                }
            }
            return false;
        }
        prev_sep = sep;
        i = i + 1;
    }
    let last = s.get_char(m - 1);
    if !is_label(last) {
        proof {
            if hostname_spec(s@) {
                lemma_hostname_pins(s@, m as int);
                assert(h[m - 1] == s@[m - 1]);
            }
        }
        return false;
    }
    proof {
        assert(h[m - 1] == s@[m - 1]);
        assert(hostname_host(h));
    }
    true
}

/// Whether the digits after the colon at `i` name a port in `[1, 65535]`.
fn port_value_in_range(s: &str, i: usize) -> (r: bool)
    requires
        port_split_at(s@, i as int),
    ensures
        r == port_value_ok(s@, i as int),
{
    let n = s.unicode_len();
    let mut j = i + 1;
    let mut val: u32 = 0;
    while j < n
        invariant
            i + 1 <= j <= n,
            n == s@.len(),
            port_split_at(s@, i as int),
            val as int == digits_val(s@.subrange(i + 1, j as int)),
            val <= 65535,
        decreases n - j,
    {
        let c = s.get_char(j);
        let d = c as u32 - '0' as u32;
        val = val * 10 + d;
        proof {
            let pre = s@.subrange(i + 1, j as int);
            let ext = s@.subrange(i + 1, j + 1int);
            assert(ext.drop_last() =~= pre);
            assert(ext.last() == s@[j as int]);
        }
        j = j + 1;
        if val > 65535 {
            proof {
                lemma_digits_val_prefix_le(s@, i + 1, j as int, n as int);
                assert(s@.subrange(i + 1, n as int) == s@.subrange(i + 1, s@.len() as int));
            }
            return false;
        }
    }
    proof {
        assert(s@.subrange(i + 1, n as int) == s@.subrange(i + 1, s@.len() as int));
    }
    val >= 1
}

/// Validates an endpoint string. Returns the string itself when it carries
/// a port in `[1, 65535]` behind an IPv4- or hostname-shaped host, the
/// matching rejection message otherwise.
pub fn valid_socket_address(s: &str) -> (r: Result<String, String>)
    ensures
        r is Ok <==> valid_socket_address_spec(s@),
        r matches Ok(a) ==> a@ == s@,
        r matches Err(m) ==> m@ == if has_valid_port(s@) {
            "Invalid address"@
        } else {
            "No valid port specified"@
        },
{
    let m = match find_port_split(s) {
        None => {
            return Err("No valid port specified".to_owned());
        },
        Some(m) => m,
    };
    if !port_value_in_range(s, m) {
        proof {
            assert forall|i: int| !(port_split_at(s@, i) && port_value_ok(s@, i)) by {
                if port_split_at(s@, i) {
                    lemma_port_split_unique(s@, i, m as int);
                }
            }
        }
        return Err("No valid port specified".to_owned());
    }
    if ipv4_address_matches(s) || hostname_matches(s) {
        Ok(s.to_owned())
    } else {
        Err("Invalid address".to_owned())
    }
}

} // verus!
