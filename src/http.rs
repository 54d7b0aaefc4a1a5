//! The HTTP `Host` extractor: the header block is split into lines, exactly
//! one `Host:` line is required, and its value becomes a routing key.

use vstd::prelude::*;
use vstd::slice::slice_subrange;
use vstd::utf8::{valid_utf8, partial_valid_utf8_extend_ascii_block};
use crate::host::{
    is_port, is_port_text, is_valid_http_host, key_string, lower, to_lower, valid_http_host,
    is_ctl, no_ctl, has_no_ctl, all_label, is_label_byte, strip_dot, MAX_HOST_LEN,
};
use crate::tls::key_matches;

verus! {

/// The most header bytes read before the end of the header block.
pub const MAX_HTTP_HEADERS: usize = 32768;

/// `\r\n\r\n` starts at `p`.
pub open spec fn terminator_at(s: Seq<u8>, p: int) -> bool {
    0 <= p && p + 4 <= s.len() && s[p] == 13 && s[p + 1] == 10 && s[p + 2] == 13 && s[p + 3]
        == 10
}

/// The first position of `\r\n\r\n` in `buf`, if any.
pub fn find_http_header_end(buf: &[u8]) -> (r: Option<usize>)
    ensures
        r is Some ==> terminator_at(buf@, r->0 as int),
        r is Some ==> forall|q: int| 0 <= q < r->0 ==> !terminator_at(buf@, q),
        r is None ==> forall|q: int| !terminator_at(buf@, q),
{
    let mut p: usize = 0;
    while buf.len() - p >= 4
        invariant
            p <= buf@.len(),
            forall|q: int| 0 <= q < p ==> !terminator_at(buf@, q),
        decreases buf@.len() - p,
    {
        if buf[p] == 13 && buf[p + 1] == 10 && buf[p + 2] == 13 && buf[p + 3] == 10 {
            return Some(p);
        }
        p = p + 1;
    }
    None
}

/// Space, tab, line feed, vertical tab, form feed and carriage return.
pub open spec fn is_ws(c: u8) -> bool {
    c == 0x20 || (0x09 <= c <= 0x0d)
}

/// The UTF-8 form of U+0085 or U+00A0.
pub open spec fn is_ws2(a: u8, b: u8) -> bool {
    a == 0xc2 && (b == 0x85 || b == 0xa0)
}

/// The UTF-8 form of U+1680, U+2000 to U+200A, U+2028, U+2029, U+202F,
/// U+205F or U+3000.
pub open spec fn is_ws3(a: u8, b: u8, c: u8) -> bool {
    (a == 0xe1 && b == 0x9a && c == 0x80) || (a == 0xe2 && b == 0x80 && ((0x80 <= c <= 0x8a) || c
        == 0xa8 || c == 0xa9 || c == 0xaf)) || (a == 0xe2 && b == 0x81 && c == 0x9f) || (a == 0xe3
        && b == 0x80 && c == 0x80)
}

/// The length of the whitespace character that `s` starts with, or 0: the
/// characters of Unicode's `White_Space` property, in UTF-8.
pub open spec fn ws_prefix(s: Seq<u8>) -> int {
    if s.len() >= 1 && is_ws(s[0]) {
        1
    } else if s.len() >= 2 && is_ws2(s[0], s[1]) {
        2
    } else if s.len() >= 3 && is_ws3(s[0], s[1], s[2]) {
        3
    } else {
        0
    }
}

/// The length of the whitespace character that `s` ends with, or 0.
pub open spec fn ws_suffix(s: Seq<u8>) -> int {
    let n = s.len() as int;
    if n >= 1 && is_ws(s[n - 1]) {
        1
    } else if n >= 2 && is_ws2(s[n - 2], s[n - 1]) {
        2
    } else if n >= 3 && is_ws3(s[n - 3], s[n - 2], s[n - 1]) {
        3
    } else {
        0
    }
}

pub open spec fn trim_start(s: Seq<u8>) -> Seq<u8>
    decreases s.len(),
{
    if ws_prefix(s) > 0 {
        trim_start(s.subrange(ws_prefix(s), s.len() as int))
    } else {
        s
    }
}

pub open spec fn trim_end(s: Seq<u8>) -> Seq<u8>
    decreases s.len(),
{
    if ws_suffix(s) > 0 {
        trim_end(s.subrange(0, s.len() - ws_suffix(s)))
    } else {
        s
    }
}

/// UTF-8 text `s` without leading and trailing whitespace.
pub open spec fn trim(s: Seq<u8>) -> Seq<u8> {
    trim_end(trim_start(s))
}

fn ws3(a: u8, b: u8, c: u8) -> (r: bool)
    ensures
        r == is_ws3(a, b, c),
{
    (a == 0xe1 && b == 0x9a && c == 0x80) || (a == 0xe2 && b == 0x80 && ((0x80 <= c && c <= 0x8a)
        || c == 0xa8 || c == 0xa9 || c == 0xaf)) || (a == 0xe2 && b == 0x81 && c == 0x9f) || (a
        == 0xe3 && b == 0x80 && c == 0x80)
}

/// The length of the whitespace character that starts at `a` in `s[..b]`.
fn ws_len_after(s: &[u8], a: usize, b: usize) -> (r: usize)
    requires
        a <= b <= s@.len(),
    ensures
        r == ws_prefix(s@.subrange(a as int, b as int)),
{
    let n = b - a;
    if n >= 1 && (s[a] == 0x20 || (0x09 <= s[a] && s[a] <= 0x0d)) {
        1
    } else if n >= 2 && s[a] == 0xc2 && (s[a + 1] == 0x85 || s[a + 1] == 0xa0) {
        2
    } else if n >= 3 && ws3(s[a], s[a + 1], s[a + 2]) {
        3
    } else {
        0
    }
}

/// The length of the whitespace character that ends at `b` in `s[a..]`.
fn ws_len_before(s: &[u8], a: usize, b: usize) -> (r: usize)
    requires
        a <= b <= s@.len(),
    ensures
        r == ws_suffix(s@.subrange(a as int, b as int)),
{
    let n = b - a;
    if n >= 1 && (s[b - 1] == 0x20 || (0x09 <= s[b - 1] && s[b - 1] <= 0x0d)) {
        1
    } else if n >= 2 && s[b - 2] == 0xc2 && (s[b - 1] == 0x85 || s[b - 1] == 0xa0) {
        2
    } else if n >= 3 && ws3(s[b - 3], s[b - 2], s[b - 1]) {
        3
    } else {
        0
    }
}

/// `s` without leading and trailing whitespace.
pub fn trim_ws(s: &[u8]) -> (r: &[u8])
    ensures
        r@ == trim(s@),
{
    let mut a: usize = 0;
    let n = s.len();
    assert(s@.subrange(0, n as int) =~= s@);
    loop
        invariant
            a <= n,
            n == s@.len(),
            trim_start(s@) == trim_start(s@.subrange(a as int, n as int)),
        ensures
            a <= n,
            trim_start(s@) == s@.subrange(a as int, n as int),
        decreases n - a,
    {
        let k = ws_len_after(s, a, n);
        if k == 0 {
            break;
        }
        assert(s@.subrange(a as int, n as int).subrange(k as int, n - a) =~= s@.subrange(
            a + k,
            n as int,
        ));
        a = a + k;
    }
    let mut b: usize = n;
    loop
        invariant
            a <= b <= n,
            n == s@.len(),
            trim(s@) == trim_end(s@.subrange(a as int, b as int)),
        ensures
            a <= b <= n,
            trim(s@) == s@.subrange(a as int, b as int),
        decreases b,
    {
        let k = ws_len_before(s, a, b);
        if k == 0 {
            break;
        }
        assert(s@.subrange(a as int, b as int).subrange(0, b - a - k) =~= s@.subrange(
            a as int,
            b - k,
        ));
        b = b - k;
    }
    slice_subrange(s, a, b)
}

/// `c` stands at `e` and nowhere before it.
pub open spec fn first_at(s: Seq<u8>, c: u8, e: int) -> bool {
    0 <= e < s.len() && s[e] == c && forall|j: int| 0 <= j < e ==> s[j] != c
}

/// Two or more colons.
pub open spec fn has_two_colons(s: Seq<u8>) -> bool {
    exists|i: int, j: int| 0 <= i < j < s.len() && s[i] == 0x3a && s[j] == 0x3a
}

/// What follows a bracketed literal: nothing, or `:` and a port.
pub open spec fn valid_after_bracket(after: Seq<u8>) -> bool {
    after.len() == 0 || (after[0] == 0x3a && is_port_text(after.drop_first()))
}

/// The lowercase host `h`, if it is a valid HTTP host.
pub open spec fn checked_host(h: Seq<u8>) -> Option<Seq<u8>> {
    if valid_http_host(lower(h)) {
        Some(lower(h))
    } else {
        None
    }
}

/// The routing key of a `Host` header value. The value is trimmed and may
/// hold no space or control byte. A value that starts with `[` runs to the
/// first `]`, after which only `:` and a port may follow. Otherwise a value
/// with two or more colons is refused, and one with a single colon must end
/// in a port after it (an empty port leaves the colon in the host, which then
/// fails). The host is lowercased and must be valid.
pub open spec fn parse_host(raw: Seq<u8>) -> Option<Seq<u8>> {
    let v = trim(raw);
    if v.len() == 0 || !no_ctl(v) {
        None
    } else if v[0] == 0x5b {
        if exists|e: int| first_at(v, 0x5d, e) {
            let e = choose|e: int| first_at(v, 0x5d, e);
            if valid_after_bracket(v.subrange(e + 1, v.len() as int)) {
                checked_host(v.subrange(0, e + 1))
            } else {
                None
            }
        } else {
            None
        }
    } else if has_two_colons(v) {
        None
    } else if exists|e: int| first_at(v, 0x3a, e) {
        let e = choose|e: int| first_at(v, 0x3a, e);
        if e + 1 == v.len() {
            checked_host(v)
        } else if is_port_text(v.subrange(e + 1, v.len() as int)) {
            checked_host(v.subrange(0, e))
        } else {
            None
        }
    } else {
        checked_host(v)
    }
}

proof fn lemma_first_at_unique(s: Seq<u8>, c: u8, e: int)
    requires
        first_at(s, c, e),
    ensures
        (choose|k: int| first_at(s, c, k)) == e,
{
    let k = choose|k: int| first_at(s, c, k);
    assert(first_at(s, c, k));
    if k < e {
        assert(s[k] != c);
    } else if k > e {
        assert(s[e] != c);
    }
}

/// The first index of `c` in `s` from `from` on, or `s.len()`.
fn find_byte(s: &[u8], c: u8, from: usize) -> (r: usize)
    requires
        from <= s@.len(),
    ensures
        from <= r <= s@.len(),
        r < s@.len() ==> s@[r as int] == c,
        forall|j: int| from <= j < r ==> s@[j] != c,
{
    let mut i: usize = from;
    while i < s.len()
        invariant
            from <= i <= s@.len(),
            forall|j: int| from <= j < i ==> s@[j] != c,
        decreases s@.len() - i,
    {
        if s[i] == c {
            return i;
        }
        i = i + 1;
    }
    i
}

/// The routing key as lowercase bytes, if it is a valid HTTP host.
fn checked_host_exec(h: &[u8]) -> (r: Option<String>)
    ensures
        key_matches(r, checked_host(h@)),
{
    let lc = to_lower(h);
    if is_valid_http_host(lc.as_slice()) {
        Some(key_string(lc))
    } else {
        None
    }
}

/// The routing key of a `Host` header value (see `parse_host`).
pub fn parse_host_value(raw: &[u8]) -> (r: Option<String>)
    ensures
        key_matches(r, parse_host(raw@)),
{
    let v = trim_ws(raw);
    if v.len() == 0 {
        return None;
    }
    if !has_no_ctl(v) {
        return None;
    }
    if v[0] == 0x5b {
        let e = find_byte(v, 0x5d, 0);
        if e == v.len() {
            assert(!exists|k: int| first_at(v@, 0x5d, k));
            return None;
        }
        proof {
            lemma_first_at_unique(v@, 0x5d, e as int);
        }
        let after = slice_subrange(v, e + 1, v.len());
        if after.len() > 0 {
            if after[0] != 0x3a {
                return None;
            }
            let port = slice_subrange(after, 1, after.len());
            assert(port@ =~= after@.drop_first());
            if !is_port(port) {
                return None;
            }
        }
        assert(valid_after_bracket(after@));
        assert(first_at(v@, 0x5d, e as int));
        checked_host_exec(slice_subrange(v, 0, e + 1))
    } else {
        let c1 = find_byte(v, 0x3a, 0);
        if c1 == v.len() {
            assert(!has_two_colons(v@));
            assert(!exists|k: int| first_at(v@, 0x3a, k));
            return checked_host_exec(v);
        }
        if c1 + 1 < v.len() {
            let c2 = find_byte(v, 0x3a, c1 + 1);
            if c2 < v.len() {
                assert(has_two_colons(v@));
                return None;
            }
        }
        assert(!has_two_colons(v@));
        proof {
            lemma_first_at_unique(v@, 0x3a, c1 as int);
        }
        if c1 + 1 == v.len() {
            return checked_host_exec(v);
        }
        let port = slice_subrange(v, c1 + 1, v.len());
        assert(first_at(v@, 0x3a, c1 as int));
        if is_port(port) {
            checked_host_exec(slice_subrange(v, 0, c1))
        } else {
            None
        }
    }
}

/// A header line whose first five bytes are `host:` in any case.
pub open spec fn is_host_line(line: Seq<u8>) -> bool {
    line.len() >= 5 && lower(line.subrange(0, 5)) == seq![104u8, 111u8, 115u8, 116u8, 58u8]
}

/// What follows `host:` on a line, or nothing for another line.
pub open spec fn host_value_of(line: Seq<u8>) -> Seq<Seq<u8>> {
    if is_host_line(line) {
        seq![line.subrange(5, line.len() as int)]
    } else {
        Seq::empty()
    }
}

/// The values of the `Host` lines of `s`, in order, for the line that began
/// at `start` and was scanned up to `i`: each `\r\n` ends a line, and the
/// bytes after the last one form the last line.
pub open spec fn host_values_scan(s: Seq<u8>, start: int, i: int) -> Seq<Seq<u8>>
    decreases s.len() - i,
{
    if i < start || start < 0 || i + 1 >= s.len() {
        host_value_of(s.subrange(start, s.len() as int))
    } else if s[i] == 13 && s[i + 1] == 10 {
        host_value_of(s.subrange(start, i)) + host_values_scan(s, i + 2, i + 2)
    } else {
        host_values_scan(s, start, i + 1)
    }
}

/// The values of all `Host` lines of a header block, in order.
pub open spec fn host_values(s: Seq<u8>) -> Seq<Seq<u8>> {
    host_values_scan(s, 0, 0)
}

/// The routing key of a header block: it must be UTF-8 text with exactly one
/// `Host` line, whose value gives the key.
pub open spec fn host_of(headers: Seq<u8>) -> Option<Seq<u8>> {
    if !valid_utf8(headers) || host_values(headers).len() != 1 {
        None
    } else {
        parse_host(host_values(headers)[0])
    }
}

/// Relies on std::str::from_utf8: it succeeds exactly on valid UTF-8.
#[verifier::external_body]
fn is_utf8(b: &[u8]) -> (r: bool)
    ensures
        r == valid_utf8(b@),
{
    std::str::from_utf8(b).is_ok()
}

fn host_line_exec(line: &[u8]) -> (r: bool)
    ensures
        r == is_host_line(line@),
{
    if line.len() < 5 {
        return false;
    }
    let pre = to_lower(slice_subrange(line, 0, 5));
    let r = pre[0] == 104 && pre[1] == 111 && pre[2] == 115 && pre[3] == 116 && pre[4] == 58;
    assert(r ==> pre@ =~= seq![104u8, 111u8, 115u8, 116u8, 58u8]);
    r
}

/// The routing key of a header block, up to and including its blank line
/// (see `host_of`).
pub fn extract_host(headers: &[u8]) -> (r: Option<String>)
    ensures
        key_matches(r, host_of(headers@)),
{
    if !is_utf8(headers) {
        return None;
    }
    let mut found: Option<String> = None;
    let ghost mut seen: Seq<Seq<u8>> = Seq::empty();
    let mut start: usize = 0;
    let mut i: usize = 0;
    loop
        invariant
            start <= i <= headers@.len(),
            valid_utf8(headers@),
            host_values(headers@) == seen + host_values_scan(headers@, start as int, i as int),
            seen.len() <= 1,
            seen.len() == 0 ==> found is None,
            seen.len() == 1 ==> parse_host(seen[0]) is Some && key_matches(
                found,
                parse_host(seen[0]),
            ),
        decreases headers@.len() - i,
    {
        let last = headers.len() - i < 2;
        if !last && !(headers[i] == 13 && headers[i + 1] == 10) {
            i = i + 1;
            continue;
        }
        let end: usize = if last {
            headers.len()
        } else {
            i
        };
        let line = slice_subrange(headers, start, end);
        let ghost here = host_value_of(line@);
        let ghost later = if last {
            Seq::<Seq<u8>>::empty()
        } else {
            host_values_scan(headers@, i + 2, i + 2)
        };
        assert(host_values_scan(headers@, start as int, i as int) == here + later);
        if host_line_exec(line) {
            if found.is_some() {
                assert((seen + (here + later)).len() >= 2);
                return None;
            }
            let val = slice_subrange(line, 5, line.len());
            found = parse_host_value(val);
            assert(here == seq![val@]);
            if found.is_none() {
                assert((seen + (here + later))[0] == val@);
                return None;
            }
            proof {
                seen = seq![val@];
            }
        }
        assert(host_values(headers@) == seen + later);
        if last {
            assert(host_values(headers@) =~= seen);
            return found;
        }
        i = i + 2;
        start = i;
    }
}

/// A `\r\n` pair starts at `k`.
pub open spec fn crlf_at(s: Seq<u8>, k: int) -> bool {
    0 <= k && k + 1 < s.len() && s[k] == 13 && s[k + 1] == 10
}

/// No `\r\n` pair inside `s`.
pub open spec fn no_crlf(s: Seq<u8>) -> bool {
    forall|k: int| !#[trigger] crlf_at(s, k)
}

/// Scanning past bytes where no `\r\n` starts changes nothing.
proof fn lemma_scan_skip(s: Seq<u8>, start: int, i: int, j: int)
    requires
        0 <= start <= i <= j,
        j + 1 < s.len(),
        forall|k: int| i <= k < j ==> !#[trigger] crlf_at(s, k),
    ensures
        host_values_scan(s, start, i) == host_values_scan(s, start, j),
    decreases j - i,
{
    if i < j {
        assert(!crlf_at(s, i));
        lemma_scan_skip(s, start, i + 1, j);
    }
}

/// ASCII bytes are valid UTF-8.
proof fn lemma_ascii_utf8(s: Seq<u8>)
    requires
        forall|k: int| 0 <= k < s.len() ==> s[k] < 128,
    ensures
        valid_utf8(s),
{
    assert(s.subrange(0, 0) =~= Seq::<u8>::empty());
    partial_valid_utf8_extend_ascii_block(s, 0, s.len() as int);
    assert(s.subrange(0, s.len() as int) =~= s);
}

/// A hostname of letters, digits, dots and hyphens.
pub open spec fn plain_hostname(name: Seq<u8>) -> bool {
    1 <= name.len() <= MAX_HOST_LEN && all_label(name)
}

/// `Host: ` and the CRLF terminators around a value.
pub open spec fn host_request(name: Seq<u8>) -> Seq<u8> {
    seq![72u8, 111u8, 115u8, 116u8, 58u8, 32u8] + name + seq![13u8, 10u8, 13u8, 10u8]
}

/// A request of the one line `Host: <name>` yields the name lowercased,
/// whatever the case of its letters.
pub proof fn lemma_single_host_line(name: Seq<u8>)
    requires
        plain_hostname(name),
    ensures
        host_of(host_request(name)) == Some(lower(name)),
{
    let s = host_request(name);
    let l: int = 6 + name.len() as int;
    assert forall|k: int| 0 <= k < s.len() implies s[k] < 128 by {
        if 6 <= k < l {
            assert(is_label_byte(name[k - 6]));
        }
    }
    lemma_ascii_utf8(s);
    assert forall|k: int| 0 <= k < l implies !#[trigger] crlf_at(s, k) by {
        if 6 <= k < l {
            assert(is_label_byte(name[k - 6]));
        }
    }
    lemma_scan_skip(s, 0, 0, l);
    let line = s.subrange(0, l);
    assert(line.subrange(0, 5) =~= seq![72u8, 111u8, 115u8, 116u8, 58u8]);
    assert(lower(line.subrange(0, 5)) =~= seq![104u8, 111u8, 115u8, 116u8, 58u8]);
    let value = line.subrange(5, l);
    assert(host_values_scan(s, l + 4, l + 4) == host_value_of(s.subrange(l + 4, l + 4)));
    assert(host_values_scan(s, l + 2, l + 2) == host_value_of(s.subrange(l + 2, l + 2))
        + host_values_scan(s, l + 4, l + 4));
    assert(!is_host_line(s.subrange(l + 2, l + 2)));
    assert(!is_host_line(s.subrange(l + 4, l + 4)));
    assert(host_values(s) =~= seq![value]);
    assert(value.drop_first() =~= name);
    assert(trim_start(value) == trim_start(name));
    assert(ws_prefix(value) == 1);
    assert(value.subrange(1, value.len() as int) =~= name);
    assert(ws_prefix(name) == 0) by {
        assert(is_label_byte(name[0]));
    }
    assert(trim_start(value) == name);
    assert(ws_suffix(name) == 0) by {
        assert(is_label_byte(name[name.len() - 1]));
    }
    assert(trim(value) == name);
    assert(no_ctl(name)) by {
        assert forall|k: int| 0 <= k < name.len() implies !is_ctl(name[k]) by {
            assert(is_label_byte(name[k]));
        }
    }
    assert(name[0] != 0x5b) by {
        assert(is_label_byte(name[0]));
    }
    assert(!has_two_colons(name)) by {
        if has_two_colons(name) {
            let (i, j) = choose|i: int, j: int|
                0 <= i < j < name.len() && name[i] == 0x3a && name[j] == 0x3a;
            assert(is_label_byte(name[i]));
        }
    }
    assert(!exists|e: int| first_at(name, 0x3a, e)) by {
        if exists|e: int| first_at(name, 0x3a, e) {
            let e = choose|e: int| first_at(name, 0x3a, e);
            assert(is_label_byte(name[e]));
        }
    }
    let lc = lower(name);
    assert forall|k: int| 0 <= k < lc.len() implies is_label_byte(lc[k]) && !is_ctl(lc[k]) by {
        assert(is_label_byte(name[k]));
    }
    assert(strip_dot(lc).len() > 0 ==> strip_dot(lc)[0] == lc[0]);
    assert(all_label(strip_dot(lc)));
    assert(valid_http_host(lc));
}

/// A request with two `Host` lines is refused, whatever their values.
pub proof fn lemma_two_host_lines(a: Seq<u8>, b: Seq<u8>)
    requires
        no_crlf(a),
        no_crlf(b),
    ensures
        host_of(
            seq![72u8, 111u8, 115u8, 116u8, 58u8] + a + seq![13u8, 10u8] + seq![
                72u8,
                111u8,
                115u8,
                116u8,
                58u8,
            ] + b + seq![13u8, 10u8, 13u8, 10u8],
        ) is None,
{
    let hp = seq![72u8, 111u8, 115u8, 116u8, 58u8];
    let s = hp + a + seq![13u8, 10u8] + hp + b + seq![13u8, 10u8, 13u8, 10u8];
    let la: int = 5 + a.len() as int;
    let lb: int = la + 2 + 5 + b.len() as int;
    assert forall|k: int| 0 <= k < la implies !#[trigger] crlf_at(s, k) by {
        if 5 <= k < la - 1 {
            assert(!crlf_at(a, k - 5));
        }
    }
    lemma_scan_skip(s, 0, 0, la);
    assert forall|k: int| la + 2 <= k < lb implies !#[trigger] crlf_at(s, k) by {
        if la + 7 <= k < lb - 1 {
            assert(!crlf_at(b, k - la - 7));
        }
    }
    lemma_scan_skip(s, la + 2, la + 2, lb);
    assert(s.subrange(0, la).subrange(0, 5) =~= hp);
    assert(s.subrange(la + 2, lb).subrange(0, 5) =~= hp);
    assert(lower(hp) =~= seq![104u8, 111u8, 115u8, 116u8, 58u8]);
    assert(is_host_line(s.subrange(0, la)));
    assert(is_host_line(s.subrange(la + 2, lb)));
    assert(host_values(s).len() >= 2);
}

} // verus!
