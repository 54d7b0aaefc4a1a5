//! Per-connection decisions of the gateway: how far header or handshake
//! reading has come, where a request goes, what an HTTP client is told on
//! failure, and when an idle relay is torn down. The caller performs the
//! reads, writes, connects and timers and reports back.

use vstd::prelude::*;
use vstd::slice::slice_subrange;
use crate::host::chars_of;
use crate::http::{MAX_HTTP_HEADERS, extract_host, host_of, terminator_at, find_http_header_end};
use crate::resolve::Config;
use crate::tls::{MAX_TLS_INITIAL, SniScan, SniStatus, extract_sni, sni_status};

verus! {

/// Time allowed to read the HTTP header block or the TLS ClientHello, in ms.
pub const CLIENT_READ_TIMEOUT_MS: u64 = 5000;

/// Time allowed to connect to a backend, in ms.
pub const BACKEND_CONNECT_TIMEOUT_MS: u64 = 3000;

/// Time a relay may pass without moving a byte either way, in ms.
pub const PROXY_IDLE_TIMEOUT_MS: u64 = 300000;

/// Size of one read from a client socket.
pub const READ_CHUNK: usize = 1024;

/// Why an HTTP connection is refused.
#[derive(Debug, Clone, Copy, PartialEq, Eq, Structural)]
pub enum HttpFailure {
    /// The client closed or went silent before the header block ended.
    Timeout,
    /// The header block grew past its bound.
    HeadersTooLarge,
    /// No single valid `Host` header.
    BadRequest,
    /// No backend for the host, or the backend could not be reached.
    BadGateway,
}

/// The exact response sent for a failure.
pub open spec fn response_text(f: HttpFailure) -> Seq<char> {
    match f {
        HttpFailure::Timeout => "HTTP/1.1 408 Request Timeout\r\nConnection: close\r\n\r\n"@,
        HttpFailure::HeadersTooLarge =>
            "HTTP/1.1 431 Request Header Fields Too Large\r\nConnection: close\r\n\r\n"@,
        HttpFailure::BadRequest => "HTTP/1.1 400 Bad Request\r\nConnection: close\r\n\r\n"@,
        HttpFailure::BadGateway => "HTTP/1.1 502 Bad Gateway\r\nConnection: close\r\n\r\n"@,
    }
}

/// The response that tells an HTTP client of `f` and closes the connection.
pub fn http_error_response(f: HttpFailure) -> (r: &'static str)
    ensures
        r@ == response_text(f),
{
    match f {
        HttpFailure::Timeout => "HTTP/1.1 408 Request Timeout\r\nConnection: close\r\n\r\n",
        HttpFailure::HeadersTooLarge =>
            "HTTP/1.1 431 Request Header Fields Too Large\r\nConnection: close\r\n\r\n",
        HttpFailure::BadRequest => "HTTP/1.1 400 Bad Request\r\nConnection: close\r\n\r\n",
        HttpFailure::BadGateway => "HTTP/1.1 502 Bad Gateway\r\nConnection: close\r\n\r\n",
    }
}

/// How far the reading of an HTTP header block has come.
#[derive(Debug, Clone, Copy, PartialEq, Eq, Structural)]
pub enum HeaderProgress {
    /// No blank line yet: read more.
    NeedMore,
    /// More than 32 KiB were read.
    TooLarge,
    /// The header block, blank line included, is this many bytes long.
    Complete(usize),
}

/// `\r\n\r\n` starts at `p` and nowhere before.
pub open spec fn first_terminator(buf: Seq<u8>, p: int) -> bool {
    terminator_at(buf, p) && forall|q: int| 0 <= q < p ==> !terminator_at(buf, q)
}

/// What the bytes read so far say of the header block: too large once they
/// pass 32 KiB, complete once they hold a blank line.
pub open spec fn header_state(buf: Seq<u8>) -> HeaderProgress {
    if buf.len() > MAX_HTTP_HEADERS {
        HeaderProgress::TooLarge
    } else if exists|p: int| first_terminator(buf, p) {
        HeaderProgress::Complete(((choose|p: int| first_terminator(buf, p)) + 4) as usize)
    } else {
        HeaderProgress::NeedMore
    }
}

/// The bytes read from an HTTP client while its header block is awaited.
pub struct HeaderReader {
    buf: Vec<u8>,
}

impl View for HeaderReader {
    type V = Seq<u8>;

    closed spec fn view(&self) -> Seq<u8> {
        self.buf@
    }
}

impl HeaderReader {
    pub fn new() -> (r: Self)
        ensures
            r@ == Seq::<u8>::empty(),
    {
        HeaderReader { buf: Vec::new() }
    }

    /// Appends what a read returned and says how far the header block has come.
    pub fn push(&mut self, chunk: &[u8]) -> (r: HeaderProgress)
        requires
            old(self)@.len() + chunk@.len() <= usize::MAX,
        ensures
            final(self)@ == old(self)@ + chunk@,
            r == header_state(final(self)@),
    {
        self.buf.extend_from_slice(chunk);
        assert(self.buf@ =~= old(self)@ + chunk@);
        if self.buf.len() > MAX_HTTP_HEADERS {
            return HeaderProgress::TooLarge;
        }
        match find_http_header_end(self.buf.as_slice()) {
            Some(p) => {
                assert(first_terminator(self.buf@, p as int));
                proof {
                    // Two first terminators cannot differ: each rules out the other.
                    let c = choose|q: int| first_terminator(self.buf@, q);
                    assert(first_terminator(self.buf@, c));
                    if c < p {
                        assert(!terminator_at(self.buf@, c));
                    } else if c > p {
                        assert(!terminator_at(self.buf@, p as int));
                    }
                }
                HeaderProgress::Complete(p + 4)
            },
            None => {
                assert(!exists|q: int| first_terminator(self.buf@, q));
                HeaderProgress::NeedMore
            },
        }
    }

    /// All bytes read so far, in order.
    pub fn buffered(&self) -> (r: &[u8])
        ensures
            r@ == self@,
    {
        self.buf.as_slice()
    }

    /// The header block and the bytes read past it: together, all bytes
    /// read so far, each once and in order.
    pub fn split_at_head(&self, head: usize) -> (r: (&[u8], &[u8]))
        requires
            head <= self@.len(),
        ensures
            r.0@ == self@.subrange(0, head as int),
            r.1@ == self@.subrange(head as int, self@.len() as int),
            r.0@ + r.1@ == self@,
    {
        let a = slice_subrange(self.buf.as_slice(), 0, head);
        let b = slice_subrange(self.buf.as_slice(), head, self.buf.len());
        assert(a@ + b@ =~= self@);
        (a, b)
    }
}

/// Where an HTTP request goes.
#[derive(Debug, PartialEq, Eq)]
pub enum HttpRoute {
    /// Connect to this backend address and forward.
    Forward(String),
    /// Answer with this failure and close.
    Reject(HttpFailure),
}

/// The route for routing key `key` under the table `backends`.
pub open spec fn route_matches(
    r: HttpRoute,
    backends: Map<Seq<char>, Seq<char>>,
    key: Option<Seq<u8>>,
) -> bool {
    match key {
        None => r == HttpRoute::Reject(HttpFailure::BadRequest),
        Some(k) => if backends.contains_key(chars_of(k)) {
            r is Forward && r->Forward_0@ == backends[chars_of(k)]
        } else {
            r == HttpRoute::Reject(HttpFailure::BadGateway)
        },
    }
}

/// Routes a request whose header block is the first `head` bytes of `buf`:
/// a request without a single valid `Host` is bad, one for a host without a
/// backend goes to no gateway.
pub fn route_http(config: &Config, buf: &[u8], head: usize) -> (r: HttpRoute)
    requires
        head <= buf@.len(),
    ensures
        route_matches(r, config@, host_of(buf@.subrange(0, head as int))),
{
    let host = match extract_host(slice_subrange(buf, 0, head)) {
        Some(h) => h,
        None => return HttpRoute::Reject(HttpFailure::BadRequest),
    };
    match config.resolve(&host) {
        Some(addr) => HttpRoute::Forward(addr),
        None => HttpRoute::Reject(HttpFailure::BadGateway),
    }
}

/// How far the search for a TLS server name has come.
#[derive(Debug, PartialEq, Eq)]
pub enum SniProgress {
    /// The ClientHello is not complete: read more.
    NeedMore,
    /// Close the connection without a word.
    Failed,
    /// The routing key.
    Ready(String),
}

/// What the bytes read so far from a TLS client call for: the server name
/// once found; failure on invalid bytes or once 32 KiB are read without one.
pub open spec fn sni_progress_matches(r: SniProgress, buf: Seq<u8>) -> bool {
    match sni_status(buf) {
        SniStatus::Found(k) => r is Ready && r->Ready_0@ == chars_of(k),
        SniStatus::Invalid => r is Failed,
        SniStatus::NeedMore => if buf.len() >= MAX_TLS_INITIAL {
            r is Failed
        } else {
            r is NeedMore
        },
    }
}

/// The bytes read from a TLS client while its server name is awaited.
pub struct SniReader {
    buf: Vec<u8>,
}

impl View for SniReader {
    type V = Seq<u8>;

    closed spec fn view(&self) -> Seq<u8> {
        self.buf@
    }
}

impl SniReader {
    pub fn new() -> (r: Self)
        ensures
            r@ == Seq::<u8>::empty(),
    {
        SniReader { buf: Vec::new() }
    }

    /// Appends what a read returned, unless that would pass 32 KiB, and says
    /// how far the search has come.
    pub fn push(&mut self, chunk: &[u8]) -> (r: SniProgress)
        ensures
            old(self)@.len() + chunk@.len() > MAX_TLS_INITIAL ==> r is Failed && final(self)@
                == old(self)@,
            old(self)@.len() + chunk@.len() <= MAX_TLS_INITIAL ==> final(self)@ == old(self)@
                + chunk@ && sni_progress_matches(r, final(self)@),
    {
        if chunk.len() > MAX_TLS_INITIAL || self.buf.len() > MAX_TLS_INITIAL - chunk.len() {
            return SniProgress::Failed;
        }
        self.buf.extend_from_slice(chunk);
        assert(self.buf@ =~= old(self)@ + chunk@);
        match extract_sni(self.buf.as_slice()) {
            SniScan::Found(k) => SniProgress::Ready(k),
            SniScan::Invalid => SniProgress::Failed,
            SniScan::NeedMore => {
                if self.buf.len() >= MAX_TLS_INITIAL {
                    SniProgress::Failed
                } else {
                    SniProgress::NeedMore
                }
            },
        }
    }

    /// All bytes read so far, in order: what the backend is sent first.
    pub fn buffered(&self) -> (r: &[u8])
        ensures
            r@ == self@,
    {
        self.buf.as_slice()
    }
}

/// The idle timer of a relay: times in ms on a clock that does not go back.
#[derive(Debug, Clone, Copy, PartialEq, Eq, Structural)]
pub struct IdleWatch {
    /// When a byte last moved.
    pub last: u64,
    /// How long the relay may stay idle.
    pub limit: u64,
}

impl IdleWatch {
    /// Whether the relay has been idle for its whole limit at `now`.
    pub open spec fn expired_at(self, now: u64) -> bool {
        now >= self.last + self.limit
    }

    /// The timer after a byte moved at `now`.
    pub open spec fn touched_at(self, now: u64) -> IdleWatch {
        IdleWatch { last: if now > self.last { now } else { self.last }, limit: self.limit }
    }

    pub fn new(now: u64, limit: u64) -> (r: Self)
        ensures
            r.last == now,
            r.limit == limit,
    {
        IdleWatch { last: now, limit }
    }

    /// Records that a byte moved at `now`.
    pub fn touch(&mut self, now: u64)
        ensures
            *final(self) == old(self).touched_at(now),
    {
        if now > self.last {
            self.last = now;
        }
    }

    /// Whether the relay must be torn down at `now`.
    pub fn is_expired(&self, now: u64) -> (r: bool)
        ensures
            r == self.expired_at(now),
    {
        now >= self.last && now - self.last >= self.limit
    }

    /// How long from `now` until the relay expires, if nothing moves.
    pub fn remaining(&self, now: u64) -> (r: u64)
        requires
            self.last + self.limit <= u64::MAX,
        ensures
            self.expired_at(now) ==> r == 0,
            !self.expired_at(now) ==> now + r == self.last + self.limit,
    {
        if self.is_expired(now) {
            0
        } else if now >= self.last {
            self.limit - (now - self.last)
        } else {
            (self.last - now) + self.limit
        }
    }
}

/// Header bytes past 32 KiB are refused as too large, with a response
/// other than the one for a client that went silent.
pub proof fn lemma_oversize_headers(buf: Seq<u8>)
    requires
        buf.len() > MAX_HTTP_HEADERS,
    ensures
        header_state(buf) == HeaderProgress::TooLarge,
        response_text(HttpFailure::HeadersTooLarge) != response_text(HttpFailure::Timeout),
{
    reveal_strlit("HTTP/1.1 408 Request Timeout\r\nConnection: close\r\n\r\n");
    reveal_strlit("HTTP/1.1 431 Request Header Fields Too Large\r\nConnection: close\r\n\r\n");
    assert(response_text(HttpFailure::HeadersTooLarge)[10] != response_text(
        HttpFailure::Timeout,
    )[10]);
}

/// The bytes a client sent, in the chunks its reads returned, joined in order.
pub open spec fn joined(chunks: Seq<Seq<u8>>) -> Seq<u8>
    decreases chunks.len(),
{
    if chunks.len() == 0 {
        Seq::empty()
    } else {
        joined(chunks.drop_last()) + chunks.last()
    }
}

/// What a backend is sent first: the header block, then what was read past it.
pub open spec fn forwarded(buf: Seq<u8>, head: int) -> Seq<u8> {
    buf.subrange(0, head) + buf.subrange(head, buf.len() as int)
}

/// Every byte read before the relay starts reaches the backend once and in
/// order, wherever the header block ends and however the reads split it.
pub proof fn lemma_forwarded_once(chunks: Seq<Seq<u8>>, head: int)
    requires
        0 <= head <= joined(chunks).len(),
    ensures
        forwarded(joined(chunks), head) == joined(chunks),
{
    assert(forwarded(joined(chunks), head) =~= joined(chunks));
}

/// A relay idle for its whole limit is torn down; a byte that moves before
/// then starts the window again from that moment.
pub proof fn lemma_idle_window(w: IdleWatch, t: u64, now: u64)
    requires
        w.last <= t,
        !w.expired_at(t),
    ensures
        now >= w.last + w.limit ==> w.expired_at(now),
        t <= now < t + w.limit ==> !w.touched_at(t).expired_at(now),
        now >= t + w.limit ==> w.touched_at(t).expired_at(now),
{
}

} // verus!
