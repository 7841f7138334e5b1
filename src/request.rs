//! The HTTP/1.1 upgrade request that opens a WebSocket connection.
use vstd::prelude::*;
use vstd::string::*;

use crate::http_upgrade::{other_io_error, UpgradeErr};

verus! {

/// The buffer a request is assembled in: up to 512 bytes stay inline.
#[verifier::external_body]
pub struct RequestBuf {
    inner: smallvec::SmallVec<[u8; 512]>,
}

/// The bytes held by a request buffer.
pub uninterp spec fn buf_bytes(b: RequestBuf) -> Seq<u8>;

/// Relies on `SmallVec::new`: the new buffer is empty.
#[verifier::external_body]
fn buf_new() -> (r: RequestBuf)
    ensures
        buf_bytes(r) == Seq::<u8>::empty(),
{
    RequestBuf { inner: smallvec::SmallVec::new() }
}

/// Relies on `SmallVec::try_reserve`: reserving never changes the contents,
/// and succeeds without allocating while the 512 inline bytes suffice (the
/// capacity is never below them).
#[verifier::external_body]
fn buf_try_reserve(b: &mut RequestBuf, additional: usize) -> (ok: bool)
    ensures
        buf_bytes(*final(b)) == buf_bytes(*old(b)),
        buf_bytes(*old(b)).len() + additional <= 512 ==> ok,
{
    b.inner.try_reserve(additional).is_ok()
}

/// Relies on `SmallVec::extend_from_slice`: appends `s`. It panics only when
/// the grown capacity (the next power of two of the new length) overflows,
/// which the bound on the length excludes.
#[verifier::external_body]
fn buf_extend(b: &mut RequestBuf, s: &[u8])
    requires
        buf_bytes(*old(b)).len() + s@.len() <= usize::MAX / 4,
    ensures
        buf_bytes(*final(b)) == buf_bytes(*old(b)) + s@,
{
    b.inner.extend_from_slice(s)
}

impl RequestBuf {
    /// Relies on `SmallVec::as_slice`: the bytes held, in order.
    #[verifier::external_body]
    pub fn as_slice(&self) -> (r: &[u8])
        ensures
            r@ == buf_bytes(*self),
    {
        self.inner.as_slice()
    }
}

pub const REQUEST_PREFIX: &'static str = "GET ";

pub const REQUEST_SUFFIX: &'static str = " HTTP/1.1\r\nHost: ";

pub const UPGRADE_HEADERS: &'static str = "\r\nUpgrade: websocket\r\nConnection: Upgrade\r\nSec-WebSocket-Version: 13\r\nSec-WebSocket-Key: ";

pub const HEADER_SEPARATOR: &'static str = ": ";

pub const CRLF: &'static str = "\r\n";

/// The lines of the extra headers, in the caller's order.
pub open spec fn extra_headers_spec(extra: Seq<(&str, &str)>) -> Seq<u8>
    decreases extra.len(),
{
    if extra.len() == 0 {
        Seq::empty()
    } else {
        let h = extra.last();
        extra_headers_spec(extra.drop_last()) + h.0.spec_bytes() + HEADER_SEPARATOR.spec_bytes()
            + h.1.spec_bytes() + CRLF.spec_bytes()
    }
}

/// The request that asks `host` to upgrade `path_and_query` to a WebSocket.
pub open spec fn request_spec(
    host: &str,
    path_and_query: &str,
    key: &str,
    extra: Seq<(&str, &str)>,
) -> Seq<u8> {
    REQUEST_PREFIX.spec_bytes() + path_and_query.spec_bytes() + REQUEST_SUFFIX.spec_bytes()
        + host.spec_bytes() + UPGRADE_HEADERS.spec_bytes() + key.spec_bytes() + CRLF.spec_bytes()
        + extra_headers_spec(extra) + CRLF.spec_bytes()
}

/// The length of the extra header lines, as the sum of their parts.
pub open spec fn extra_headers_len(extra: Seq<(&str, &str)>) -> nat
    decreases extra.len(),
{
    if extra.len() == 0 {
        0
    } else {
        let h = extra.last();
        extra_headers_len(extra.drop_last()) + h.0.spec_bytes().len()
            + HEADER_SEPARATOR.spec_bytes().len() + h.1.spec_bytes().len() + CRLF.spec_bytes().len()
    }
}

/// The length of the request, as the sum of its parts.
pub open spec fn request_len(
    host: &str,
    path_and_query: &str,
    key: &str,
    extra: Seq<(&str, &str)>,
) -> nat {
    REQUEST_PREFIX.spec_bytes().len() + path_and_query.spec_bytes().len()
        + REQUEST_SUFFIX.spec_bytes().len() + host.spec_bytes().len()
        + UPGRADE_HEADERS.spec_bytes().len() + key.spec_bytes().len() + CRLF.spec_bytes().len()
        + CRLF.spec_bytes().len() + extra_headers_len(extra)
}

proof fn lemma_extra_step(extra: Seq<(&str, &str)>, i: int)
    requires
        0 <= i < extra.len(),
    ensures
        extra_headers_spec(extra.take(i + 1)) == extra_headers_spec(extra.take(i))
            + extra[i].0.spec_bytes() + HEADER_SEPARATOR.spec_bytes() + extra[i].1.spec_bytes()
            + CRLF.spec_bytes(),
        extra_headers_len(extra.take(i + 1)) == extra_headers_len(extra.take(i))
            + extra[i].0.spec_bytes().len() + HEADER_SEPARATOR.spec_bytes().len()
            + extra[i].1.spec_bytes().len() + CRLF.spec_bytes().len(),
{
    assert(extra.take(i + 1).drop_last() =~= extra.take(i));
    assert(extra.take(i + 1).last() == extra[i]);
}

proof fn lemma_extra_len_prefix(extra: Seq<(&str, &str)>, j: int)
    requires
        0 <= j <= extra.len(),
    ensures
        extra_headers_len(extra.take(j)) <= extra_headers_len(extra),
    decreases extra.len(),
{
    if j == extra.len() {
        assert(extra.take(j) =~= extra);
    } else {
        let d = extra.drop_last();
        assert(d.take(j) =~= extra.take(j));
        lemma_extra_len_prefix(d, j);
    }
}

proof fn lemma_extra_spec_len(extra: Seq<(&str, &str)>)
    ensures
        extra_headers_spec(extra).len() == extra_headers_len(extra),
    decreases extra.len(),
{
    if extra.len() > 0 {
        lemma_extra_spec_len(extra.drop_last());
    }
}

/// The request laid out by `build_request` is exactly as long as the sum
/// of its parts that `request_size` computes, whatever the extra headers.
pub proof fn lemma_request_length(
    host: &str,
    path_and_query: &str,
    key: &str,
    extra: Seq<(&str, &str)>,
)
    ensures
        request_spec(host, path_and_query, key, extra).len() == request_len(
            host,
            path_and_query,
            key,
            extra,
        ),
{
    lemma_extra_spec_len(extra);
}

/// Extra headers only add their lines: the request with headers `extra` is
/// the request without any, up to its closing blank line, then each header
/// line in order, then the blank line; its length grows by exactly the
/// lengths of those lines.
pub proof fn lemma_extra_headers_appended(
    host: &str,
    path_and_query: &str,
    key: &str,
    extra: Seq<(&str, &str)>,
)
    ensures
        ({
            let none = request_spec(host, path_and_query, key, Seq::empty());
            &&& request_spec(host, path_and_query, key, extra) == none.take(
                none.len() - CRLF.spec_bytes().len(),
            ) + extra_headers_spec(extra) + CRLF.spec_bytes()
            &&& none.skip(none.len() - CRLF.spec_bytes().len()) == CRLF.spec_bytes()
        }),
        request_len(host, path_and_query, key, extra) == request_len(
            host,
            path_and_query,
            key,
            Seq::empty(),
        ) + extra_headers_len(extra),
{
    let none = request_spec(host, path_and_query, key, Seq::empty());
    let head = REQUEST_PREFIX.spec_bytes() + path_and_query.spec_bytes()
        + REQUEST_SUFFIX.spec_bytes() + host.spec_bytes() + UPGRADE_HEADERS.spec_bytes()
        + key.spec_bytes() + CRLF.spec_bytes();
    assert(extra_headers_spec(Seq::<(&str, &str)>::empty()) =~= Seq::<u8>::empty());
    assert(none =~= head + CRLF.spec_bytes());
    assert(none.take(none.len() - CRLF.spec_bytes().len()) =~= head);
    assert(none.skip(none.len() - CRLF.spec_bytes().len()) =~= CRLF.spec_bytes());
    assert(request_spec(host, path_and_query, key, extra) =~= head + extra_headers_spec(extra)
        + CRLF.spec_bytes());
}

/// The length of the upgrade request, summed with checked arithmetic, or
/// `None` when the sum does not fit in a `usize`.
pub fn request_size(host: &str, path_and_query: &str, key: &str, extra: &[(&str, &str)]) -> (r:
    Option<usize>)
    ensures
        match r {
            Some(n) => n as nat == request_len(host, path_and_query, key, extra@),
            None => request_len(host, path_and_query, key, extra@) > usize::MAX,
        },
{
    let mut extra_len: usize = 0;
    let mut i: usize = 0;
    while i < extra.len()
        invariant
            i <= extra@.len(),
            extra_len as nat == extra_headers_len(extra@.take(i as int)),
        decreases extra@.len() - i,
    {
        let (k, v) = extra[i];
        proof {
            lemma_extra_step(extra@, i as int);
        }
        let step = match extra_len.checked_add(k.as_bytes().len()) {
            Some(a) => match a.checked_add(HEADER_SEPARATOR.as_bytes().len()) {
                Some(b) => match b.checked_add(v.as_bytes().len()) {
                    Some(c) => c.checked_add(CRLF.as_bytes().len()),
                    None => None,
                },
                None => None,
            },
            None => None,
        };
        match step {
            Some(n) => {
                extra_len = n;
            },
            None => {
                proof {
                    lemma_extra_len_prefix(extra@, i + 1);
                }
                return None;
            },
        }
        i = i + 1;
    }
    proof {
        assert(extra@.take(extra@.len() as int) =~= extra@);
    }
    let base = match REQUEST_PREFIX.as_bytes().len().checked_add(path_and_query.as_bytes().len()) {
        Some(a) => match a.checked_add(REQUEST_SUFFIX.as_bytes().len()) {
            Some(b) => match b.checked_add(host.as_bytes().len()) {
                Some(c) => match c.checked_add(UPGRADE_HEADERS.as_bytes().len()) {
                    Some(d) => match d.checked_add(key.as_bytes().len()) {
                        Some(e) => match e.checked_add(CRLF.as_bytes().len()) {
                            Some(f) => f.checked_add(CRLF.as_bytes().len()),
                            None => None,
                        },
                        None => None,
                    },
                    None => None,
                },
                None => None,
            },
            None => None,
        },
        None => None,
    };
    match base {
        Some(b) => b.checked_add(extra_len),
        None => None,
    }
}

/// Lays out the upgrade request: the request line for `path_and_query`,
/// `Host`, the three upgrade headers and `Sec-WebSocket-Key: key`, then the
/// extra headers in the caller's order, then the blank line. Nothing is
/// escaped. The size is computed first: a request whose length does not fit
/// (or exceeds a quarter of the address space) is refused with an `Io` error
/// before anything is laid out, as is one whose buffer cannot be reserved.
/// A request of at most 512 bytes always succeeds: it fits the inline
/// buffer.
pub fn build_request(host: &str, path_and_query: &str, key: &str, extra: &[(&str, &str)]) -> (r:
    Result<RequestBuf, UpgradeErr>)
    ensures
        request_len(host, path_and_query, key, extra@) > usize::MAX / 4 ==> r is Err,
        request_len(host, path_and_query, key, extra@) <= 512 ==> r is Ok,
        match r {
            Ok(b) => buf_bytes(b) == request_spec(host, path_and_query, key, extra@) && buf_bytes(
                b,
            ).len() == request_len(host, path_and_query, key, extra@),
            Err(e) => e is Io,
        },
{
    let total = match request_size(host, path_and_query, key, extra) {
        Some(n) => n,
        None => {
            return Err(UpgradeErr::Io(other_io_error("request headers exceed maximum buffer size")));
        },
    };
    if total > usize::MAX / 4 {
        return Err(UpgradeErr::Io(other_io_error("request headers exceed maximum buffer size")));
    }
    let mut buf = buf_new();
    if !buf_try_reserve(&mut buf, total) {
        return Err(UpgradeErr::Io(other_io_error("failed to reserve request buffer")));
    }
    proof {
        lemma_extra_len_prefix(extra@, 0);
        assert(extra@.take(0) =~= Seq::<(&str, &str)>::empty());
    }
    buf_extend(&mut buf, REQUEST_PREFIX.as_bytes());
    buf_extend(&mut buf, path_and_query.as_bytes());
    buf_extend(&mut buf, REQUEST_SUFFIX.as_bytes());
    buf_extend(&mut buf, host.as_bytes());
    buf_extend(&mut buf, UPGRADE_HEADERS.as_bytes());
    buf_extend(&mut buf, key.as_bytes());
    buf_extend(&mut buf, CRLF.as_bytes());
    let ghost head = buf_bytes(buf);
    let mut i: usize = 0;
    while i < extra.len()
        invariant
            i <= extra@.len(),
            total as nat == request_len(host, path_and_query, key, extra@),
            total <= usize::MAX / 4,
            head.len() + extra_headers_len(extra@) + CRLF.spec_bytes().len() == total,
            head == REQUEST_PREFIX.spec_bytes() + path_and_query.spec_bytes()
                + REQUEST_SUFFIX.spec_bytes() + host.spec_bytes() + UPGRADE_HEADERS.spec_bytes()
                + key.spec_bytes() + CRLF.spec_bytes(),
            buf_bytes(buf) == head + extra_headers_spec(extra@.take(i as int)),
        decreases extra@.len() - i,
    {
        let (k, v) = extra[i];
        proof {
            lemma_extra_step(extra@, i as int);
            lemma_extra_len_prefix(extra@, i + 1);
            lemma_extra_spec_len(extra@.take(i as int));
        }
        buf_extend(&mut buf, k.as_bytes());
        buf_extend(&mut buf, HEADER_SEPARATOR.as_bytes());
        buf_extend(&mut buf, v.as_bytes());
        buf_extend(&mut buf, CRLF.as_bytes());
        proof {
            assert(buf_bytes(buf) =~= head + extra_headers_spec(extra@.take(i + 1)));
        }
        i = i + 1;
    }
    proof {
        assert(extra@.take(extra@.len() as int) =~= extra@);
        lemma_extra_spec_len(extra@);
    }
    buf_extend(&mut buf, CRLF.as_bytes());
    proof {
        lemma_request_length(host, path_and_query, key, extra@);
        assert(buf_bytes(buf) =~= request_spec(host, path_and_query, key, extra@));
    }
    Ok(buf)
}

} // verus!
