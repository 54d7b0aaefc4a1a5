//! Routing keys: ASCII lowercasing, hostname validation and port text.

use vstd::prelude::*;

verus! {

/// The most bytes a routing key may hold.
pub const MAX_HOST_LEN: usize = 253;

/// The most bytes between the brackets of an IP literal.
pub const MAX_IP_LITERAL_LEN: usize = 100;

pub open spec fn lower_byte(c: u8) -> u8 {
    if 65 <= c <= 90 {
        (c + 32) as u8
    } else {
        c
    }
}

/// ASCII lowercasing; other bytes are kept.
pub open spec fn lower(s: Seq<u8>) -> Seq<u8> {
    s.map_values(|c: u8| lower_byte(c))
}

/// The characters that ASCII bytes stand for.
pub open spec fn chars_of(s: Seq<u8>) -> Seq<char> {
    s.map_values(|c: u8| c as char)
}

pub open spec fn is_ascii(s: Seq<u8>) -> bool {
    forall|i: int| 0 <= i < s.len() ==> s[i] < 128
}

/// Space, control bytes and DEL.
pub open spec fn is_ctl(c: u8) -> bool {
    c <= 0x20 || c == 0x7f
}

pub open spec fn no_ctl(s: Seq<u8>) -> bool {
    forall|i: int| 0 <= i < s.len() ==> !is_ctl(#[trigger] s[i])
}

pub open spec fn is_alnum(c: u8) -> bool {
    (48 <= c <= 57) || (65 <= c <= 90) || (97 <= c <= 122)
}

/// Letters, digits, `.` and `-`.
pub open spec fn is_label_byte(c: u8) -> bool {
    is_alnum(c) || c == 0x2e || c == 0x2d
}

/// Hex digits, `:` and `.`.
pub open spec fn is_ip_literal_byte(c: u8) -> bool {
    (48 <= c <= 57) || (65 <= c <= 70) || (97 <= c <= 102) || c == 0x3a || c == 0x2e
}

pub open spec fn all_label(s: Seq<u8>) -> bool {
    forall|i: int| 0 <= i < s.len() ==> is_label_byte(#[trigger] s[i])
}

/// `s` without one trailing dot, if it has one.
pub open spec fn strip_dot(s: Seq<u8>) -> Seq<u8> {
    if s.len() > 0 && s.last() == 0x2e {
        s.drop_last()
    } else {
        s
    }
}

/// A bracketed literal: `[`, 1 to 100 bytes of hex digits, `:` and `.`, then `]`.
pub open spec fn valid_ip_literal(h: Seq<u8>) -> bool {
    &&& 3 <= h.len() <= MAX_IP_LITERAL_LEN + 2
    &&& h[0] == 0x5b
    &&& h.last() == 0x5d
    &&& forall|i: int| 1 <= i < h.len() - 1 ==> is_ip_literal_byte(#[trigger] h[i])
}

/// A hostname as an HTTP `Host` header may give it: 1 to 253 bytes with no
/// control byte; after one trailing dot is set aside, either a bracketed IP
/// literal or letters, digits, dots and hyphens.
pub open spec fn valid_http_host(s: Seq<u8>) -> bool {
    &&& 1 <= s.len() <= MAX_HOST_LEN
    &&& no_ctl(s)
    &&& if strip_dot(s).len() > 0 && strip_dot(s)[0] == 0x5b {
        valid_ip_literal(strip_dot(s))
    } else {
        all_label(strip_dot(s))
    }
}

/// A TLS server name: 1 to 253 letters, digits, dots and hyphens (the one
/// trailing dot that may be set aside is itself such a byte).
pub open spec fn valid_sni(s: Seq<u8>) -> bool {
    1 <= s.len() <= MAX_HOST_LEN && all_label(s)
}

pub open spec fn is_digit(c: u8) -> bool {
    48 <= c <= 57
}

/// The number that a run of decimal digits writes.
pub open spec fn digits_value(s: Seq<u8>) -> nat
    decreases s.len(),
{
    if s.len() == 0 {
        0
    } else {
        digits_value(s.drop_last()) * 10 + (s.last() - 48) as nat
    }
}

/// Text that reads as a 16-bit unsigned number: an optional `+`, then one or
/// more decimal digits whose value is at most 65535.
pub open spec fn is_port_text(s: Seq<u8>) -> bool {
    &&& port_digits(s).len() > 0
    &&& forall|i: int| 0 <= i < port_digits(s).len() ==> is_digit(#[trigger] port_digits(s)[i])
    &&& digits_value(port_digits(s)) <= 65535
}

/// Port text without its optional leading `+`.
pub open spec fn port_digits(s: Seq<u8>) -> Seq<u8> {
    if s.len() > 0 && s[0] == 0x2b {
        s.drop_first()
    } else {
        s
    }
}

/// Relies on String::from_utf8: ASCII bytes are valid UTF-8, and each becomes
/// the character of the same code.
#[verifier::external_body]
fn ascii_string(b: Vec<u8>) -> (r: String)
    requires
        is_ascii(b@),
    ensures
        r@ == chars_of(b@),
{
    match String::from_utf8(b) {
        Ok(s) => s,
        Err(_) => String::new(),
    }
}

/// The routing key as a string; it holds ASCII only.
pub(crate) fn key_string(b: Vec<u8>) -> (r: String)
    requires
        valid_http_host(b@) || valid_sni(b@),
    ensures
        r@ == chars_of(b@),
{
    proof {
        lemma_host_is_ascii(b@);
    }
    ascii_string(b)
}

/// Valid hostnames hold ASCII bytes only.
pub proof fn lemma_host_is_ascii(s: Seq<u8>)
    requires
        valid_http_host(s) || valid_sni(s),
    ensures
        is_ascii(s),
{
    let h = strip_dot(s);
    assert forall|i: int| 0 <= i < s.len() implies s[i] < 128 by {
        if valid_sni(s) {
            assert(is_label_byte(s[i]));
        } else if i >= h.len() {
            assert(s[i] == 0x2e);
        } else if h.len() > 0 && h[0] == 0x5b {
            if i == 0 || i == h.len() - 1 {
            } else {
                assert(is_ip_literal_byte(h[i]));
            }
        } else {
            assert(is_label_byte(h[i]));
        }
    }
}

/// ASCII lowercase copy of `s`.
pub fn to_lower(s: &[u8]) -> (r: Vec<u8>)
    ensures
        r@ == lower(s@),
{
    let mut r: Vec<u8> = Vec::with_capacity(s.len());
    let mut i: usize = 0;
    while i < s.len()
        invariant
            i <= s@.len(),
            r@ =~= lower(s@.subrange(0, i as int)),
        decreases s@.len() - i,
    {
        let c = s[i];
        let l: u8 = if 65 <= c && c <= 90 {
            c + 32
        } else {
            c
        };
        r.push(l);
        proof {
            assert(s@.subrange(0, i + 1) =~= s@.subrange(0, i as int).push(c));
        }
        i = i + 1;
    }
    proof {
        assert(s@.subrange(0, s@.len() as int) =~= s@);
    }
    r
}

/// Whether `s` is a valid TLS server name (see `valid_sni`).
pub fn is_valid_sni(s: &[u8]) -> (r: bool)
    ensures
        r == valid_sni(s@),
{
    if s.len() == 0 || s.len() > MAX_HOST_LEN {
        return false;
    }
    let mut i: usize = 0;
    while i < s.len()
        invariant
            i <= s@.len(),
            forall|j: int| 0 <= j < i ==> is_label_byte(#[trigger] s@[j]),
        decreases s@.len() - i,
    {
        if !is_label(s[i]) {
            assert(!is_label_byte(s@[i as int]));
            return false;
        }
        i = i + 1;
    }
    true
}

fn is_label(c: u8) -> (r: bool)
    ensures
        r == is_label_byte(c),
{
    (48 <= c && c <= 57) || (65 <= c && c <= 90) || (97 <= c && c <= 122) || c == 0x2e || c
        == 0x2d
}

fn is_ip_literal(c: u8) -> (r: bool)
    ensures
        r == is_ip_literal_byte(c),
{
    (48 <= c && c <= 57) || (65 <= c && c <= 70) || (97 <= c && c <= 102) || c == 0x3a || c
        == 0x2e
}

/// Whether `s` has no space, control byte or DEL.
pub fn has_no_ctl(s: &[u8]) -> (r: bool)
    ensures
        r == no_ctl(s@),
{
    let mut i: usize = 0;
    while i < s.len()
        invariant
            i <= s@.len(),
            forall|j: int| 0 <= j < i ==> !is_ctl(#[trigger] s@[j]),
        decreases s@.len() - i,
    {
        if s[i] <= 0x20 || s[i] == 0x7f {
            assert(is_ctl(s@[i as int]));
            return false;
        }
        i = i + 1;
    }
    true
}

/// Whether `host` is a valid HTTP host (see `valid_http_host`).
pub fn is_valid_http_host(host: &[u8]) -> (r: bool)
    ensures
        r == valid_http_host(host@),
{
    if host.len() == 0 || host.len() > MAX_HOST_LEN {
        return false;
    }
    if !has_no_ctl(host) {
        return false;
    }
    let n: usize = if host[host.len() - 1] == 0x2e {
        host.len() - 1
    } else {
        host.len()
    };
    let ghost h = strip_dot(host@);
    assert(h =~= host@.subrange(0, n as int));
    if n > 0 && host[0] == 0x5b {
        if n < 3 || host[n - 1] != 0x5d || n - 2 > MAX_IP_LITERAL_LEN {
            return false;
        }
        let mut i: usize = 1;
        while i < n - 1
            invariant
                1 <= i <= n - 1,
                n <= host@.len(),
                h == strip_dot(host@),
                h[0] == 0x5b,
                h =~= host@.subrange(0, n as int),
                forall|j: int| 1 <= j < i ==> is_ip_literal_byte(#[trigger] h[j]),
            decreases n - i,
        {
            if !is_ip_literal(host[i]) {
                assert(!is_ip_literal_byte(h[i as int]));
                return false;
            }
            i = i + 1;
        }
        true
    } else {
        let mut i: usize = 0;
        while i < n
            invariant
                i <= n,
                n <= host@.len(),
                h == strip_dot(host@),
                !(h.len() > 0 && h[0] == 0x5b),
                h =~= host@.subrange(0, n as int),
                forall|j: int| 0 <= j < i ==> is_label_byte(#[trigger] h[j]),
            decreases n - i,
        {
            if !is_label(host[i]) {
                assert(!is_label_byte(h[i as int]));
                return false;
            }
            i = i + 1;
        }
        true
    }
}

/// Whether `s` reads as a 16-bit port number (see `is_port_text`).
pub fn is_port(s: &[u8]) -> (r: bool)
    ensures
        r == is_port_text(s@),
{
    let start: usize = if s.len() > 0 && s[0] == 0x2b {
        1
    } else {
        0
    };
    let ghost d = port_digits(s@);
    assert(d =~= s@.subrange(start as int, s@.len() as int));
    if start >= s.len() {
        return false;
    }
    let mut v: u32 = 0;
    let mut i: usize = start;
    while i < s.len()
        invariant
            start <= i <= s@.len(),
            start < s@.len(),
            d == port_digits(s@),
            d =~= s@.subrange(start as int, s@.len() as int),
            v == digits_value(d.subrange(0, i - start)),
            v <= 65535,
            forall|j: int| 0 <= j < i - start ==> is_digit(#[trigger] d[j]),
        decreases s@.len() - i,
    {
        let c = s[i];
        if c < 48 || c > 57 {
            assert(!is_digit(d[i - start]));
            return false;
        }
        proof {
            let k = (i - start) as int;
            assert(d.subrange(0, k + 1).drop_last() =~= d.subrange(0, k));
        }
        v = v * 10 + (c - 48) as u32;
        if v > 65535 {
            proof {
                if forall|j: int| 0 <= j < d.len() ==> is_digit(#[trigger] d[j]) {
                    lemma_digits_grow(d, (i - start + 1) as int);
                }
            }
            return false;
        }
        i = i + 1;
    }
    assert(d.subrange(0, d.len() as int) =~= d);
    true
}

/// Appending digits never makes the value smaller.
proof fn lemma_digits_grow(d: Seq<u8>, k: int)
    requires
        0 <= k <= d.len(),
        forall|j: int| 0 <= j < d.len() ==> is_digit(#[trigger] d[j]),
    ensures
        digits_value(d.subrange(0, k)) <= digits_value(d),
    decreases d.len() - k,
{
    if k < d.len() {
        lemma_digits_grow(d, k + 1);
        assert(d.subrange(0, k + 1).drop_last() =~= d.subrange(0, k));
    } else {
        assert(d.subrange(0, k) =~= d);
    }
}

} // verus!
