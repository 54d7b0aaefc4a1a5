//! The TLS `server_name` extractor: TLS records are walked, handshake
//! payloads reassembled, and the ClientHello's host name validated.

use vstd::prelude::*;
use vstd::slice::slice_subrange;
use crate::cursor::Cur;
use crate::host::{chars_of, is_valid_sni, key_string, lower, to_lower, valid_sni};

verus! {

/// The most handshake bytes that are reassembled, and the most bytes read
/// from a client before a routing key must be found.
pub const MAX_TLS_INITIAL: usize = 32768;

/// The most records that are walked.
pub const MAX_TLS_RECORDS_TO_SCAN: usize = 8;

/// Content type of a handshake record.
pub const HANDSHAKE: u8 = 0x16;

/// Handshake type of a ClientHello.
pub const CLIENT_HELLO: u8 = 0x01;

pub open spec fn be16(s: Seq<u8>, p: int) -> int {
    s[p] as int * 256 + s[p + 1] as int
}

pub open spec fn be24(s: Seq<u8>, p: int) -> int {
    s[p] as int * 65536 + s[p + 1] as int * 256 + s[p + 2] as int
}

/// The extensions block of a ClientHello body: after the version (2), the
/// random (32), the session id, the cipher suites and the compression
/// methods, a 2-byte length and that many bytes.
pub open spec fn hello_extensions(body: Seq<u8>) -> Option<Seq<u8>> {
    if body.len() < 35 {
        None
    } else {
        let cs_at = 35 + body[34] as int;
        if cs_at + 2 > body.len() {
            None
        } else {
            let comp_at = cs_at + 2 + be16(body, cs_at);
            if comp_at + 1 > body.len() {
                None
            } else {
                let exts_at = comp_at + 1 + body[comp_at] as int;
                if exts_at + 2 > body.len() {
                    None
                } else {
                    let e = exts_at + 2 + be16(body, exts_at);
                    if e > body.len() {
                        None
                    } else {
                        Some(body.subrange(exts_at + 2, e))
                    }
                }
            }
        }
    }
}

/// Walks a server name list from offset `p`: entries of a 1-byte name type,
/// a 2-byte length and the name. The first host name (type 0) decides: its
/// lowercase form if that is a valid server name, else nothing.
pub open spec fn first_host_name_at(list: Seq<u8>, p: int) -> Option<Seq<u8>>
    decreases list.len() - p,
{
    if p < 0 || p + 3 > list.len() {
        None
    } else {
        let l = be16(list, p + 1);
        if p + 3 + l > list.len() {
            None
        } else if list[p] == 0 {
            let name = lower(list.subrange(p + 3, p + 3 + l));
            if valid_sni(name) {
                Some(name)
            } else {
                None
            }
        } else {
            first_host_name_at(list, p + 3 + l)
        }
    }
}

/// The host name carried by the payload of a `server_name` extension.
pub open spec fn server_name_of(data: Seq<u8>) -> Option<Seq<u8>> {
    if data.len() < 2 || 2 + be16(data, 0) > data.len() {
        None
    } else {
        first_host_name_at(data.subrange(2, 2 + be16(data, 0)), 0)
    }
}

/// Walks an extensions block from offset `p`: entries of a 2-byte type, a
/// 2-byte length and a payload. The first `server_name` extension (type 0)
/// decides.
pub open spec fn server_name_at(exts: Seq<u8>, p: int) -> Option<Seq<u8>>
    decreases exts.len() - p,
{
    if p < 0 || p + 4 > exts.len() {
        None
    } else {
        let l = be16(exts, p + 2);
        if p + 4 + l > exts.len() {
            None
        } else if be16(exts, p) == 0 {
            server_name_of(exts.subrange(p + 4, p + 4 + l))
        } else {
            server_name_at(exts, p + 4 + l)
        }
    }
}

/// The routing key of a whole handshake message: a ClientHello whose
/// 3-byte body length fits in the message, with a valid server name.
pub open spec fn handshake_sni(msg: Seq<u8>) -> Option<Seq<u8>> {
    if msg.len() < 4 || msg[0] != CLIENT_HELLO || 4 + be24(msg, 1) > msg.len() {
        None
    } else {
        match hello_extensions(msg.subrange(4, 4 + be24(msg, 1))) {
            Some(exts) => server_name_at(exts, 0),
            None => None,
        }
    }
}

/// `r` is the string form of the routing key `k`, if any.
pub open spec fn key_matches(r: Option<String>, k: Option<Seq<u8>>) -> bool {
    match k {
        Some(key) => r is Some && r->0@ == chars_of(key),
        None => r is None,
    }
}

/// The host name of a `server_name` extension payload.
pub fn server_name_from_extension(data: &[u8]) -> (r: Option<String>)
    ensures
        key_matches(r, server_name_of(data@)),
{
    let mut sn = Cur::new(data);
    let list_len = match sn.u16() {
        Some(v) => v as usize,
        None => return None,
    };
    if sn.rem() < list_len {
        return None;
    }
    let list = match sn.take(list_len) {
        Some(s) => s,
        None => return None,
    };
    assert(server_name_of(data@) == first_host_name_at(list@, 0));
    let mut li = Cur::new(list);
    while li.rem() >= 3
        invariant
            li.b == list,
            server_name_of(data@) == first_host_name_at(list@, 0),
            li.i <= list@.len(),
            first_host_name_at(list@, 0) == first_host_name_at(list@, li.i as int),
        decreases list@.len() - li.i,
    {
        let ghost p = li.i as int;
        let name_type = match li.u8() {
            Some(v) => v,
            None => return None,
        };
        let name_len = match li.u16() {
            Some(v) => v as usize,
            None => return None,
        };
        if li.rem() < name_len {
            return None;
        }
        let name_bytes = match li.take(name_len) {
            Some(s) => s,
            None => return None,
        };
        if name_type == 0 {
            let name_lc = to_lower(name_bytes);
            if is_valid_sni(name_lc.as_slice()) {
                return Some(key_string(name_lc));
            } else {
                return None;
            }
        }
        assert(li.i == p + 3 + be16(list@, p + 1));
    }
    None
}

/// The routing key of a complete handshake message (see `handshake_sni`).
pub fn extract_sni_from_clienthello_handshake(handshake_msg: &[u8]) -> (r: Option<String>)
    ensures
        key_matches(r, handshake_sni(handshake_msg@)),
{
    let mut c = Cur::new(handshake_msg);
    let msg_type = match c.u8() {
        Some(v) => v,
        None => return None,
    };
    if msg_type != CLIENT_HELLO {
        return None;
    }
    let hlen = match c.u24_usize() {
        Some(v) => v,
        None => return None,
    };
    if c.rem() < hlen {
        return None;
    }
    let body = match c.take(hlen) {
        Some(s) => s,
        None => return None,
    };
    assert(body@ == handshake_msg@.subrange(4, 4 + be24(handshake_msg@, 1)));
    let mut ch = Cur::new(body);
    if ch.skip(2 + 32).is_none() {
        return None;
    }
    let sid_len = match ch.u8() {
        Some(v) => v as usize,
        None => return None,
    };
    if ch.skip(sid_len).is_none() {
        return None;
    }
    let cs_len = match ch.u16() {
        Some(v) => v as usize,
        None => return None,
    };
    if ch.skip(cs_len).is_none() {
        return None;
    }
    let comp_len = match ch.u8() {
        Some(v) => v as usize,
        None => return None,
    };
    if ch.skip(comp_len).is_none() {
        return None;
    }
    if ch.rem() < 2 {
        return None;
    }
    let exts_len = match ch.u16() {
        Some(v) => v as usize,
        None => return None,
    };
    if ch.rem() < exts_len {
        return None;
    }
    let exts = match ch.take(exts_len) {
        Some(s) => s,
        None => return None,
    };
    assert(hello_extensions(body@) == Some(exts@));
    assert(handshake_sni(handshake_msg@) == server_name_at(exts@, 0));
    let mut ex = Cur::new(exts);
    while ex.rem() >= 4
        invariant
            ex.b == exts,
            handshake_sni(handshake_msg@) == server_name_at(exts@, 0),
            ex.i <= exts@.len(),
            server_name_at(exts@, 0) == server_name_at(exts@, ex.i as int),
        decreases exts@.len() - ex.i,
    {
        let ghost p = ex.i as int;
        let ext_type = match ex.u16() {
            Some(v) => v,
            None => return None,
        };
        let ext_len = match ex.u16() {
            Some(v) => v as usize,
            None => return None,
        };
        if ex.rem() < ext_len {
            return None;
        }
        let ext_data = match ex.take(ext_len) {
            Some(s) => s,
            None => return None,
        };
        if ext_type == 0 {
            return server_name_from_extension(ext_data);
        }
        assert(ex.i == p + 4 + be16(exts@, p + 2));
    }
    None
}

/// What the bytes read so far from a client say of its server name.
pub enum SniStatus {
    /// A complete ClientHello with this valid server name.
    Found(Seq<u8>),
    /// The handshake message is not complete yet.
    NeedMore,
    /// The bytes cannot lead to a routing key.
    Invalid,
}

/// The outcome of the server name extractor.
#[derive(Debug, PartialEq, Eq)]
pub enum SniScan {
    /// A complete ClientHello with this valid server name.
    Found(String),
    /// The handshake message is not complete yet: read more bytes.
    NeedMore,
    /// Malformed records, not a ClientHello, too large, or no valid server name.
    Invalid,
}

impl SniScan {
    pub open spec fn matches_status(&self, st: SniStatus) -> bool {
        match st {
            SniStatus::Found(k) => self is Found && self->Found_0@ == chars_of(k),
            SniStatus::NeedMore => self is NeedMore,
            SniStatus::Invalid => self is Invalid,
        }
    }
}

/// Walks TLS records from offset `i`, `seen` records in and with `acc`
/// reassembled: each record is a content type, a 2-byte version, a 2-byte
/// length and a payload. At most 8 records are walked. Handshake payloads are
/// appended to `acc`, which may hold at most 32 KiB; once it holds 4 bytes its
/// first must be a ClientHello, and once it holds the whole message that
/// message decides.
pub open spec fn scan_records(data: Seq<u8>, i: int, seen: int, acc: Seq<u8>) -> SniStatus
    decreases data.len() - i,
{
    if seen >= MAX_TLS_RECORDS_TO_SCAN {
        SniStatus::Invalid
    } else if i < 0 || i + 5 > data.len() {
        SniStatus::NeedMore
    } else {
        let rlen = be16(data, i + 3);
        let next = i + 5 + rlen;
        if next > data.len() {
            SniStatus::NeedMore
        } else if data[i] != HANDSHAKE {
            scan_records(data, next, seen + 1, acc)
        } else if acc.len() + rlen > MAX_TLS_INITIAL {
            SniStatus::Invalid
        } else {
            let acc2 = acc + data.subrange(i + 5, next);
            if acc2.len() < 4 {
                scan_records(data, next, seen + 1, acc2)
            } else if acc2[0] != CLIENT_HELLO {
                SniStatus::Invalid
            } else if acc2.len() < 4 + be24(acc2, 1) {
                scan_records(data, next, seen + 1, acc2)
            } else {
                match handshake_sni(acc2.subrange(0, 4 + be24(acc2, 1))) {
                    Some(k) => SniStatus::Found(k),
                    None => SniStatus::Invalid,
                }
            }
        }
    }
}

/// What `data`, the bytes read so far from a client, say of its server name.
pub open spec fn sni_status(data: Seq<u8>) -> SniStatus {
    scan_records(data, 0, 0, Seq::empty())
}

/// Reassembles the ClientHello from the records in `data` and extracts its
/// server name (see `sni_status`).
pub fn extract_sni(data: &[u8]) -> (r: SniScan)
    ensures
        r.matches_status(sni_status(data@)),
{
    let mut i: usize = 0;
    let mut records_seen: usize = 0;
    let mut hs_accum: Vec<u8> = Vec::new();
    loop
        invariant
            i <= data@.len(),
            records_seen <= MAX_TLS_RECORDS_TO_SCAN,
            hs_accum@.len() <= MAX_TLS_INITIAL,
            sni_status(data@) == scan_records(
                data@,
                i as int,
                records_seen as int,
                hs_accum@,
            ),
        decreases data@.len() - i,
    {
        if records_seen >= MAX_TLS_RECORDS_TO_SCAN {
            return SniScan::Invalid;
        }
        if data.len() - i < 5 {
            return SniScan::NeedMore;
        }
        let content_type = data[i];
        let rlen = (data[i + 3] as usize) * 256 + (data[i + 4] as usize);
        if rlen > data.len() - i - 5 {
            return SniScan::NeedMore;
        }
        let start = i + 5;
        let ghost acc0 = hs_accum@;
        i = start + rlen;
        records_seen = records_seen + 1;
        if content_type != HANDSHAKE {
            continue;
        }
        if hs_accum.len() + rlen > MAX_TLS_INITIAL {
            return SniScan::Invalid;
        }
        let payload = slice_subrange(data, start, i);
        hs_accum.extend_from_slice(payload);
        assert(hs_accum@ =~= acc0 + data@.subrange(start as int, i as int));
        if hs_accum.len() < 4 {
            continue;
        }
        if hs_accum[0] != CLIENT_HELLO {
            return SniScan::Invalid;
        }
        let hlen = (hs_accum[1] as usize) * 65536 + (hs_accum[2] as usize) * 256 + (
        hs_accum[3] as usize);
        let total = 4 + hlen;
        if hs_accum.len() < total {
            continue;
        }
        let msg = slice_subrange(hs_accum.as_slice(), 0, total);
        return match extract_sni_from_clienthello_handshake(msg) {
            Some(k) => SniScan::Found(k),
            None => SniScan::Invalid,
        };
    }
}

/// A handshake record whose payload already shows a first byte other than
/// ClientHello fails at once, whatever bytes follow it.
pub proof fn lemma_not_client_hello_fails_fast(header: Seq<u8>, payload: Seq<u8>, more: Seq<u8>)
    requires
        header.len() == 5,
        header[0] == HANDSHAKE,
        be16(header, 3) == payload.len(),
        4 <= payload.len() <= MAX_TLS_INITIAL,
        payload[0] != CLIENT_HELLO,
    ensures
        sni_status(header + payload + more) == SniStatus::Invalid,
{
    let data = header + payload + more;
    assert(be16(data, 3) == be16(header, 3));
    assert(Seq::<u8>::empty() + data.subrange(5, 5 + payload.len() as int) =~= payload);
}

/// A handshake record around `payload` (at most 65535 bytes).
pub open spec fn handshake_record(payload: Seq<u8>) -> Seq<u8> {
    seq![HANDSHAKE, 3u8, 1u8, (payload.len() / 256) as u8, (payload.len() % 256) as u8]
        + payload
}

/// `m` does not hold a whole handshake message yet.
pub open spec fn partial_message(m: Seq<u8>) -> bool {
    m.len() < 4 || (m[0] == CLIENT_HELLO && m.len() < 4 + be24(m, 1))
}

/// Reassembly does not depend on record boundaries: a handshake message
/// split over two records, the first of which does not complete it, gives
/// what the same message in one record gives.
#[verifier::rlimit(40)]
pub proof fn lemma_split_records(m1: Seq<u8>, m2: Seq<u8>)
    requires
        m1.len() <= 65535,
        m2.len() <= 65535,
        (m1 + m2).len() <= 65535,
        partial_message(m1),
    ensures
        sni_status(handshake_record(m1) + handshake_record(m2)) == sni_status(
            handshake_record(m1 + m2),
        ),
{
    let m = m1 + m2;
    let d1 = handshake_record(m1) + handshake_record(m2);
    let d2 = handshake_record(m);
    let n1: int = 5 + m1.len() as int;
    assert(be16(d1, 3) == m1.len());
    assert(be16(d2, 3) == m.len());
    assert(d1.subrange(5, n1) =~= m1);
    assert(Seq::<u8>::empty() + m1 =~= m1);
    assert(d2.subrange(5, d2.len() as int) =~= m);
    assert(Seq::<u8>::empty() + m =~= m);
    assert(d1[n1] == HANDSHAKE);
    assert(be16(d1, n1 + 3) == m2.len());
    assert(d1.subrange(n1 + 5, d1.len() as int) =~= m2);
    if m1.len() >= 4 {
        assert(m[0] == m1[0] && be24(m, 1) == be24(m1, 1));
    }
    assert(scan_records(d1, 0, 0, Seq::empty()) == scan_records(d1, n1, 1, m1));
    assert(m1 + d1.subrange(n1 + 5, d1.len() as int) =~= m);
    assert(n1 + 5 + m2.len() == d1.len());
    assert(scan_records(d1, d1.len() as int, 2, m) == SniStatus::NeedMore);
    assert(scan_records(d2, d2.len() as int, 1, m) == SniStatus::NeedMore);
    assert(scan_records(d1, n1, 1, m1) == scan_records(d2, 0, 0, Seq::empty()));
}

proof fn lemma_name_list_valid(list: Seq<u8>, p: int)
    requires
        first_host_name_at(list, p) is Some,
    ensures
        valid_sni(first_host_name_at(list, p)->0),
    decreases list.len() - p,
{
    if p >= 0 && p + 3 <= list.len() && p + 3 + be16(list, p + 1) <= list.len() && list[p] != 0 {
        lemma_name_list_valid(list, p + 3 + be16(list, p + 1));
    }
}

proof fn lemma_extensions_valid(exts: Seq<u8>, p: int)
    requires
        server_name_at(exts, p) is Some,
    ensures
        valid_sni(server_name_at(exts, p)->0),
    decreases exts.len() - p,
{
    if p >= 0 && p + 4 <= exts.len() && p + 4 + be16(exts, p + 2) <= exts.len() {
        if be16(exts, p) == 0 {
            let data = exts.subrange(p + 4, p + 4 + be16(exts, p + 2));
            lemma_name_list_valid(data.subrange(2, 2 + be16(data, 0)), 0);
        } else {
            lemma_extensions_valid(exts, p + 4 + be16(exts, p + 2));
        }
    }
}

/// A routing key found in a handshake message is a valid server name, so
/// never empty.
pub proof fn lemma_handshake_key_valid(msg: Seq<u8>)
    requires
        handshake_sni(msg) is Some,
    ensures
        valid_sni(handshake_sni(msg)->0),
{
    let exts = hello_extensions(msg.subrange(4, 4 + be24(msg, 1)))->0;
    lemma_extensions_valid(exts, 0);
}

proof fn lemma_scan_valid(data: Seq<u8>, i: int, seen: int, acc: Seq<u8>)
    requires
        scan_records(data, i, seen, acc) is Found,
    ensures
        valid_sni(scan_records(data, i, seen, acc)->Found_0),
    decreases data.len() - i,
{
    if seen < MAX_TLS_RECORDS_TO_SCAN && 0 <= i && i + 5 <= data.len() {
        let rlen = be16(data, i + 3);
        let next = i + 5 + rlen;
        if next <= data.len() {
            if data[i] != HANDSHAKE {
                lemma_scan_valid(data, next, seen + 1, acc);
            } else if acc.len() + rlen <= MAX_TLS_INITIAL {
                let acc2 = acc + data.subrange(i + 5, next);
                if acc2.len() < 4 || acc2.len() < 4 + be24(acc2, 1) {
                    lemma_scan_valid(data, next, seen + 1, acc2);
                } else if acc2[0] == CLIENT_HELLO {
                    lemma_handshake_key_valid(acc2.subrange(0, 4 + be24(acc2, 1)));
                }
            }
        }
    }
}

/// Whatever the client sent, a server name that the extractor reports is a
/// valid, non-empty routing key: absent or invalid names give no default.
pub proof fn lemma_found_key_valid(data: Seq<u8>)
    requires
        sni_status(data) is Found,
    ensures
        valid_sni(sni_status(data)->Found_0),
        sni_status(data)->Found_0.len() > 0,
{
    lemma_scan_valid(data, 0, 0, Seq::empty());
}

} // verus!
