//! Reading and validating the server's answer to the upgrade request.
use vstd::prelude::*;
use vstd::string::*;
use vstd::utf8::{decode_utf8, encode_utf8, valid_utf8};

use crate::http_upgrade::UpgradeErr;
use crate::text::chars_of;

verus! {

/// The most header bytes buffered before the response is refused.
pub const MAX_HEADER_BYTES: usize = 16384;

/// The most header lines a response may have.
pub const MAX_HEADERS: usize = 32;

pub const CONNECTION: &'static str = "Connection";

pub const UPGRADE: &'static str = "Upgrade";

pub const SEC_WEBSOCKET_ACCEPT: &'static str = "Sec-WebSocket-Accept";

pub const UPGRADE_TOKEN: &'static str = "upgrade";

pub const WEBSOCKET: &'static str = "websocket";

// ---------------------------------------------------------------------------
// Case-insensitive comparison

pub open spec fn ascii_lower(b: u8) -> u8 {
    if 65 <= b <= 90 {
        (b + 32) as u8
    } else {
        b
    }
}

/// Equality of byte strings with ASCII letters compared regardless of case.
pub open spec fn eq_ignore_ascii_case(a: Seq<u8>, b: Seq<u8>) -> bool {
    a.len() == b.len() && forall|i: int| 0 <= i < a.len() ==> ascii_lower(#[trigger] a[i])
        == ascii_lower(b[i])
}

pub open spec fn char_lower(c: char) -> u32 {
    if 65 <= (c as u32) <= 90 {
        (c as u32 + 32) as u32
    } else {
        c as u32
    }
}

/// Equality of texts with ASCII letters compared regardless of case.
pub open spec fn chars_eq_ignore_ascii_case(a: Seq<char>, b: Seq<char>) -> bool {
    a.len() == b.len() && forall|i: int| 0 <= i < a.len() ==> char_lower(#[trigger] a[i])
        == char_lower(b[i])
}

fn bytes_eq_ignore_ascii_case(a: &[u8], b: &[u8]) -> (r: bool)
    ensures
        r == eq_ignore_ascii_case(a@, b@),
{
    if a.len() != b.len() {
        return false;
    }
    let mut i: usize = 0;
    while i < a.len()
        invariant
            i <= a@.len(),
            a@.len() == b@.len(),
            forall|k: int| 0 <= k < i ==> ascii_lower(#[trigger] a@[k]) == ascii_lower(b@[k]),
        decreases a@.len() - i,
    {
        let x = a[i];
        let y = b[i];
        let lx: u8 = if 65 <= x && x <= 90 {
            x + 32
        } else {
            x
        };
        let ly: u8 = if 65 <= y && y <= 90 {
            y + 32
        } else {
            y
        };
        if lx != ly {
            return false;
        }
        i = i + 1;
    }
    true
}

fn lower_char(c: char) -> (r: u32)
    ensures
        r == char_lower(c),
{
    let x = c as u32;
    if 65 <= x && x <= 90 {
        x + 32
    } else {
        x
    }
}

// ---------------------------------------------------------------------------
// Trimming and comma-separated tokens

/// Whether a character has the Unicode `White_Space` property: U+0009 to
/// U+000D, U+0020, U+0085, U+00A0, U+1680, U+2000 to U+200A, U+2028,
/// U+2029, U+202F, U+205F and U+3000.
pub open spec fn white_space_of(c: char) -> bool {
    let u = c as u32;
    ||| 0x09 <= u <= 0x0d
    ||| u == 0x20
    ||| u == 0x85
    ||| u == 0xa0
    ||| u == 0x1680
    ||| 0x2000 <= u <= 0x200a
    ||| u == 0x2028
    ||| u == 0x2029
    ||| u == 0x202f
    ||| u == 0x205f
    ||| u == 0x3000
}

/// Relies on `char::is_whitespace`: the Unicode `White_Space` property.
#[verifier::external_body]
fn is_white_space(c: char) -> (r: bool)
    ensures
        r == white_space_of(c),
{
    c.is_whitespace()
}

pub open spec fn trim_start(s: Seq<char>) -> Seq<char>
    decreases s.len(),
{
    if s.len() > 0 && white_space_of(s[0]) {
        trim_start(s.skip(1))
    } else {
        s
    }
}

pub open spec fn trim_end(s: Seq<char>) -> Seq<char>
    decreases s.len(),
{
    if s.len() > 0 && white_space_of(s.last()) {
        trim_end(s.drop_last())
    } else {
        s
    }
}

/// `s` without its leading and trailing white space.
pub open spec fn trim(s: Seq<char>) -> Seq<char> {
    trim_end(trim_start(s))
}

/// Whether one of the comma-separated parts of `s`, from the part that
/// starts at `start` on (`i` is how far that part has been read), equals
/// `t` once trimmed, regardless of ASCII case.
pub open spec fn token_scan(s: Seq<char>, t: Seq<char>, start: int, i: int) -> bool
    decreases s.len() - i,
{
    if i < start || start < 0 || i >= s.len() {
        chars_eq_ignore_ascii_case(trim(s.subrange(start, s.len() as int)), t)
    } else if s[i] == ',' {
        chars_eq_ignore_ascii_case(trim(s.subrange(start, i)), t) || token_scan(s, t, i + 1, i + 1)
    } else {
        token_scan(s, t, start, i + 1)
    }
}

/// Whether `t` is one of the comma-separated, trimmed parts of `s`,
/// regardless of ASCII case.
pub open spec fn has_token(s: Seq<char>, t: Seq<char>) -> bool {
    token_scan(s, t, 0, 0)
}

fn part_matches(c: &Vec<char>, a: usize, b: usize, t: &Vec<char>) -> (r: bool)
    requires
        a <= b <= c@.len(),
    ensures
        r == chars_eq_ignore_ascii_case(trim(c@.subrange(a as int, b as int)), t@),
{
    let mut lo: usize = a;
    while lo < b && is_white_space(c[lo])
        invariant
            a <= lo <= b <= c@.len(),
            trim_start(c@.subrange(a as int, b as int)) == trim_start(
                c@.subrange(lo as int, b as int),
            ),
        decreases b - lo,
    {
        proof {
            let p = c@.subrange(lo as int, b as int);
            assert(p.skip(1) =~= c@.subrange(lo + 1, b as int));
            assert(p[0] == c@[lo as int]);
        }
        lo = lo + 1;
    }
    proof {
        let p = c@.subrange(lo as int, b as int);
        if lo < b {
            assert(p[0] == c@[lo as int]);
        }
    }
    let mut hi: usize = b;
    while hi > lo && is_white_space(c[hi - 1])
        invariant
            a <= lo <= hi <= b <= c@.len(),
            trim_end(c@.subrange(lo as int, b as int)) == trim_end(
                c@.subrange(lo as int, hi as int),
            ),
        decreases hi,
    {
        proof {
            let p = c@.subrange(lo as int, hi as int);
            assert(p.drop_last() =~= c@.subrange(lo as int, hi - 1));
            assert(p.last() == c@[hi - 1]);
        }
        hi = hi - 1;
    }
    let ghost w = c@.subrange(lo as int, hi as int);
    proof {
        if hi > lo {
            assert(w.last() == c@[hi - 1]);
        }
        assert(trim(c@.subrange(a as int, b as int)) == w);
    }
    if hi - lo != t.len() {
        return false;
    }
    let mut k: usize = 0;
    while k < t.len()
        invariant
            k <= t@.len(),
            hi - lo == t@.len(),
            lo <= hi <= c@.len(),
            w == c@.subrange(lo as int, hi as int),
            a <= b <= c@.len(),
            trim(c@.subrange(a as int, b as int)) == w,
            forall|j: int| 0 <= j < k ==> char_lower(#[trigger] w[j]) == char_lower(t@[j]),
        decreases t@.len() - k,
    {
        if lower_char(c[lo + k]) != lower_char(t[k]) {
            proof {
                assert(w[k as int] == c@[lo + k]);
            }
            return false;
        }
        proof {
            assert(w[k as int] == c@[lo + k]);
        }
        k = k + 1;
    }
    true
}

/// Whether `t` is one of the comma-separated, trimmed parts of `s`.
fn text_has_token(s: &str, t: &str) -> (r: bool)
    ensures
        r == has_token(s@, t@),
{
    let c = chars_of(s);
    let tc = chars_of(t);
    let n = c.len();
    let mut start: usize = 0;
    let mut i: usize = 0;
    while i < n
        invariant
            start <= i <= n,
            n == c@.len(),
            c@ == s@,
            tc@ == t@,
            has_token(s@, t@) == token_scan(s@, t@, start as int, i as int),
        decreases n - i,
    {
        if c[i] == ',' {
            if part_matches(&c, start, i, &tc) {
                return true;
            }
            start = i + 1;
        }
        i = i + 1;
    }
    part_matches(&c, start, n, &tc)
}

// ---------------------------------------------------------------------------
// UTF-8

/// Relies on `std::str::from_utf8`: succeeds exactly on UTF-8, with the text
/// that the bytes encode.
#[verifier::external_body]
fn utf8_text(b: &[u8]) -> (r: Result<&str, std::str::Utf8Error>)
    ensures
        match r {
            Ok(s) => valid_utf8(b@) && s@ == decode_utf8(b@),
            Err(_) => !valid_utf8(b@),
        },
{
    std::str::from_utf8(b)
}

/// Whether the header value `value` is UTF-8 and equals `token` regardless
/// of ASCII case.
pub fn value_eq_ascii(value: &[u8], token: &str) -> (r: Result<bool, std::str::Utf8Error>)
    ensures
        match r {
            Ok(x) => valid_utf8(value@) && x == eq_ignore_ascii_case(value@, token.spec_bytes()),
            Err(_) => !valid_utf8(value@),
        },
{
    match utf8_text(value) {
        Ok(_) => Ok(bytes_eq_ignore_ascii_case(value, token.as_bytes())),
        Err(e) => Err(e),
    }
}

/// Whether the header value `value` is UTF-8 and one of its comma-separated
/// parts, trimmed, equals `token` regardless of ASCII case.
pub fn header_has_token(value: &[u8], token: &str) -> (r: Result<bool, std::str::Utf8Error>)
    ensures
        match r {
            Ok(x) => valid_utf8(value@) && x == has_token(decode_utf8(value@), token@),
            Err(_) => !valid_utf8(value@),
        },
{
    match utf8_text(value) {
        Ok(text) => Ok(text_has_token(text, token)),
        Err(e) => Err(e),
    }
}

// ---------------------------------------------------------------------------
// Parsed responses

/// One header line of a response.
pub struct HeaderField {
    pub name: Vec<u8>,
    pub value: Vec<u8>,
}

impl HeaderField {
    pub open spec fn view(&self) -> (Seq<u8>, Seq<u8>) {
        (self.name@, self.value@)
    }
}

/// The status code and header lines of a response.
pub struct ResponseHead {
    pub code: Option<u16>,
    pub headers: Vec<HeaderField>,
}

/// A response head as values: the status code and (name, value) pairs.
pub type HeadModel = (Option<u16>, Seq<(Seq<u8>, Seq<u8>)>);

impl ResponseHead {
    pub open spec fn view(&self) -> HeadModel {
        (self.code, self.headers@.map_values(|h: HeaderField| h.view()))
    }
}

/// The head that an HTTP/1.x response parser reads from `data`, when the
/// head is complete, well formed and has at most `max_headers` header lines.
pub uninterp spec fn http_response_of(data: Seq<u8>, max_headers: nat) -> Option<HeadModel>;

/// Relies on `httparse::Response::parse` with room for `max_headers`
/// headers: a complete head gives its status code and header lines; a
/// partial head or a parse error gives `None`.
#[verifier::external_body]
fn parse_response(data: &[u8], max_headers: usize) -> (r: Option<ResponseHead>)
    ensures
        match r {
            Some(h) => http_response_of(data@, max_headers as nat) == Some(h.view()),
            None => http_response_of(data@, max_headers as nat) is None,
        },
{
    let mut headers = vec![httparse::EMPTY_HEADER; max_headers];
    let mut resp = httparse::Response::new(&mut headers);
    match resp.parse(data) {
        Ok(httparse::Status::Complete(_)) => Some(ResponseHead {
            code: resp.code,
            headers: resp.headers.iter().map(
                |h| HeaderField { name: h.name.as_bytes().to_vec(), value: h.value.to_vec() },
            ).collect(),
        }),
        _ => None,
    }
}

/// The value of the first header whose name equals `name` regardless of
/// ASCII case.
pub open spec fn find_header_spec(hs: Seq<(Seq<u8>, Seq<u8>)>, name: Seq<u8>) -> Option<Seq<u8>>
    decreases hs.len(),
{
    if hs.len() == 0 {
        None
    } else if eq_ignore_ascii_case(hs[0].0, name) {
        Some(hs[0].1)
    } else {
        find_header_spec(hs.skip(1), name)
    }
}

/// The value of the first header of `head` named `name`, in any case.
pub fn find_header<'a>(head: &'a ResponseHead, name: &str) -> (r: Option<&'a Vec<u8>>)
    ensures
        match r {
            Some(v) => find_header_spec(head.view().1, name.spec_bytes()) == Some(v@),
            None => find_header_spec(head.view().1, name.spec_bytes()) is None,
        },
{
    let ghost hs = head.view().1;
    let nb = name.as_bytes();
    let mut i: usize = 0;
    proof {
        assert(hs.skip(0) =~= hs);
    }
    while i < head.headers.len()
        invariant
            i <= head.headers@.len(),
            hs == head.view().1,
            nb@ == name.spec_bytes(),
            find_header_spec(hs, nb@) == find_header_spec(hs.skip(i as int), nb@),
        decreases head.headers@.len() - i,
    {
        let h = &head.headers[i];
        proof {
            assert(hs.skip(i as int).skip(1) =~= hs.skip(i + 1));
            assert(hs.skip(i as int)[0] == h.view());
        }
        if bytes_eq_ignore_ascii_case(h.name.as_slice(), nb) {
            return Some(&h.value);
        }
        i = i + 1;
    }
    proof {
        assert(hs.skip(i as int).len() == 0);
    }
    None
}

/// How a response head answers a handshake.
pub enum Verdict {
    Valid,
    Status,
    Headers,
    Accept,
    Utf8,
}

/// The verdict on a response head, given the expected accept value: the
/// status must be 101; `Connection` must hold the token `upgrade`; `Upgrade`
/// must be `websocket`; `Sec-WebSocket-Accept` must be the expected value.
/// Header names and the two words compare regardless of ASCII case.
pub open spec fn head_verdict(head: HeadModel, expected: Seq<char>) -> Verdict {
    let hs = head.1;
    if head.0 != Some(101u16) {
        Verdict::Status
    } else {
        match find_header_spec(hs, CONNECTION.spec_bytes()) {
            None => Verdict::Headers,
            Some(c) => if !valid_utf8(c) {
                Verdict::Utf8
            } else if !has_token(decode_utf8(c), UPGRADE_TOKEN@) {
                Verdict::Headers
            } else {
                match find_header_spec(hs, UPGRADE.spec_bytes()) {
                    None => Verdict::Headers,
                    Some(u) => if !valid_utf8(u) {
                        Verdict::Utf8
                    } else if !eq_ignore_ascii_case(u, WEBSOCKET.spec_bytes()) {
                        Verdict::Headers
                    } else {
                        match find_header_spec(hs, SEC_WEBSOCKET_ACCEPT.spec_bytes()) {
                            None => Verdict::Headers,
                            Some(a) => if !valid_utf8(a) {
                                Verdict::Utf8
                            } else if decode_utf8(a) != expected {
                                Verdict::Accept
                            } else {
                                Verdict::Valid
                            },
                        }
                    },
                }
            },
        }
    }
}

/// Whether `r` reports the verdict `v`.
pub open spec fn reports(r: Result<(), UpgradeErr>, v: Verdict) -> bool {
    match v {
        Verdict::Valid => r is Ok,
        Verdict::Status => r is Err && r->Err_0 is Status,
        Verdict::Headers => r is Err && r->Err_0 is Headers,
        Verdict::Accept => r is Err && r->Err_0 is Accept,
        Verdict::Utf8 => r is Err && r->Err_0 is Utf8,
    }
}

/// Checks a parsed response head against the expected accept value.
pub fn check_head(head: &ResponseHead, expected_accept: &str) -> (r: Result<(), UpgradeErr>)
    ensures
        reports(r, head_verdict(head.view(), expected_accept@)),
{
    if !matches!(head.code, Some(101)) {
        return Err(UpgradeErr::Status);
    }
    let connection = match find_header(head, CONNECTION) {
        Some(v) => v,
        None => {
            return Err(UpgradeErr::Headers);
        },
    };
    match header_has_token(connection.as_slice(), UPGRADE_TOKEN) {
        Ok(true) => {},
        Ok(false) => {
            return Err(UpgradeErr::Headers);
        },
        Err(e) => {
            return Err(UpgradeErr::Utf8(e));
        },
    }
    let upgrade = match find_header(head, UPGRADE) {
        Some(v) => v,
        None => {
            return Err(UpgradeErr::Headers);
        },
    };
    match value_eq_ascii(upgrade.as_slice(), WEBSOCKET) {
        Ok(true) => {},
        Ok(false) => {
            return Err(UpgradeErr::Headers);
        },
        Err(e) => {
            return Err(UpgradeErr::Utf8(e));
        },
    }
    let accept = match find_header(head, SEC_WEBSOCKET_ACCEPT) {
        Some(v) => v,
        None => {
            return Err(UpgradeErr::Headers);
        },
    };
    let accept_str = match utf8_text(accept.as_slice()) {
        Ok(s) => s,
        Err(e) => {
            return Err(UpgradeErr::Utf8(e));
        },
    };
    if !str_eq(accept_str, expected_accept) {
        return Err(UpgradeErr::Accept);
    }
    Ok(())
}

fn str_eq(a: &str, b: &str) -> (r: bool)
    ensures
        r == (a@ == b@),
{
    let ca = chars_of(a);
    let cb = chars_of(b);
    if ca.len() != cb.len() {
        return false;
    }
    let mut i: usize = 0;
    while i < ca.len()
        invariant
            i <= ca@.len(),
            ca@.len() == cb@.len(),
            ca@ == a@,
            cb@ == b@,
            forall|k: int| 0 <= k < i ==> ca@[k] == cb@[k],
        decreases ca@.len() - i,
    {
        if ca[i] != cb[i] {
            proof {
                assert(ca@[i as int] != cb@[i as int]);
            }
            return false;
        }
        i = i + 1;
    }
    proof {
        assert(ca@ =~= cb@);
    }
    true
}

/// Parses the buffered response `data` and checks it against the expected
/// accept value; a response that does not parse is a `Headers` error.
pub fn validate_response(data: &[u8], expected_accept: &str) -> (r: Result<(), UpgradeErr>)
    ensures
        match http_response_of(data@, MAX_HEADERS as nat) {
            None => r is Err && r->Err_0 is Headers,
            Some(h) => reports(r, head_verdict(h, expected_accept@)),
        },
{
    match parse_response(data, MAX_HEADERS) {
        Some(head) => check_head(&head, expected_accept),
        None => Err(UpgradeErr::Headers),
    }
}

/// Header names match regardless of ASCII case: two names that differ only
/// in case find the same header.
pub proof fn lemma_header_name_case(hs: Seq<(Seq<u8>, Seq<u8>)>, a: Seq<u8>, b: Seq<u8>)
    requires
        eq_ignore_ascii_case(a, b),
    ensures
        find_header_spec(hs, a) == find_header_spec(hs, b),
    decreases hs.len(),
{
    if hs.len() > 0 {
        let n = hs[0].0;
        assert(eq_ignore_ascii_case(n, a) == eq_ignore_ascii_case(n, b)) by {
            if eq_ignore_ascii_case(n, a) {
                assert forall|i: int| 0 <= i < n.len() implies ascii_lower(#[trigger] n[i])
                    == ascii_lower(b[i]) by {
                    assert(ascii_lower(n[i]) == ascii_lower(a[i]));
                    assert(ascii_lower(a[i]) == ascii_lower(b[i]));
                }
            }
            if eq_ignore_ascii_case(n, b) {
                assert forall|i: int| 0 <= i < n.len() implies ascii_lower(#[trigger] n[i])
                    == ascii_lower(a[i]) by {
                    assert(ascii_lower(n[i]) == ascii_lower(b[i]));
                    assert(ascii_lower(a[i]) == ascii_lower(b[i]));
                }
            }
        }
        lemma_header_name_case(hs.skip(1), a, b);
    }
}

/// A response with status 101 and correct `Connection` and `Upgrade`
/// headers, whose UTF-8 `Sec-WebSocket-Accept` differs from the expected
/// value, is refused for its accept value, never for its status or headers.
pub proof fn lemma_wrong_accept_is_accept(head: HeadModel, expected: Seq<char>)
    requires
        head.0 == Some(101u16),
        find_header_spec(head.1, CONNECTION.spec_bytes()) matches Some(c) && valid_utf8(c)
            && has_token(decode_utf8(c), UPGRADE_TOKEN@),
        find_header_spec(head.1, UPGRADE.spec_bytes()) matches Some(u) && valid_utf8(u)
            && eq_ignore_ascii_case(u, WEBSOCKET.spec_bytes()),
        find_header_spec(head.1, SEC_WEBSOCKET_ACCEPT.spec_bytes()) matches Some(a) && valid_utf8(
            a,
        ) && decode_utf8(a) != expected,
    ensures
        head_verdict(head, expected) == Verdict::Accept,
{
}

/// Whether exactly one header of `hs` is named `name` (in any case), and
/// its value is `v`.
pub open spec fn sole_header(hs: Seq<(Seq<u8>, Seq<u8>)>, name: Seq<u8>, v: Seq<u8>) -> bool {
    &&& exists|i: int|
        0 <= i < hs.len() && eq_ignore_ascii_case(#[trigger] hs[i].0, name) && hs[i].1 == v
    &&& forall|i: int, j: int|
        0 <= i < hs.len() && 0 <= j < hs.len() && eq_ignore_ascii_case(#[trigger] hs[i].0, name)
            && eq_ignore_ascii_case(#[trigger] hs[j].0, name) ==> i == j
}

proof fn lemma_sole_header_found(hs: Seq<(Seq<u8>, Seq<u8>)>, name: Seq<u8>, v: Seq<u8>)
    requires
        sole_header(hs, name, v),
    ensures
        find_header_spec(hs, name) == Some(v),
    decreases hs.len(),
{
    let i = choose|i: int|
        0 <= i < hs.len() && eq_ignore_ascii_case(#[trigger] hs[i].0, name) && hs[i].1 == v;
    if !eq_ignore_ascii_case(hs[0].0, name) {
        let t = hs.skip(1);
        assert(t[i - 1] == hs[i]);
        assert forall|a: int, b: int|
            0 <= a < t.len() && 0 <= b < t.len() && eq_ignore_ascii_case(#[trigger] t[a].0, name)
                && eq_ignore_ascii_case(#[trigger] t[b].0, name) implies a == b by {
            assert(t[a] == hs[a + 1]);
            assert(t[b] == hs[b + 1]);
        }
        lemma_sole_header_found(t, name, v);
    }
}

/// The order of header lines does not matter: two heads with the same
/// status, each holding `Connection`, `Upgrade` and `Sec-WebSocket-Accept`
/// once with the same values, get the same verdict, wherever those lines
/// stand and whatever other lines surround them.
pub proof fn lemma_header_order(
    h1: HeadModel,
    h2: HeadModel,
    expected: Seq<char>,
    connection: Seq<u8>,
    upgrade: Seq<u8>,
    accept: Seq<u8>,
)
    requires
        h1.0 == h2.0,
        sole_header(h1.1, CONNECTION.spec_bytes(), connection),
        sole_header(h2.1, CONNECTION.spec_bytes(), connection),
        sole_header(h1.1, UPGRADE.spec_bytes(), upgrade),
        sole_header(h2.1, UPGRADE.spec_bytes(), upgrade),
        sole_header(h1.1, SEC_WEBSOCKET_ACCEPT.spec_bytes(), accept),
        sole_header(h2.1, SEC_WEBSOCKET_ACCEPT.spec_bytes(), accept),
    ensures
        head_verdict(h1, expected) == head_verdict(h2, expected),
{
    lemma_sole_header_found(h1.1, CONNECTION.spec_bytes(), connection);
    lemma_sole_header_found(h2.1, CONNECTION.spec_bytes(), connection);
    lemma_sole_header_found(h1.1, UPGRADE.spec_bytes(), upgrade);
    lemma_sole_header_found(h2.1, UPGRADE.spec_bytes(), upgrade);
    lemma_sole_header_found(h1.1, SEC_WEBSOCKET_ACCEPT.spec_bytes(), accept);
    lemma_sole_header_found(h2.1, SEC_WEBSOCKET_ACCEPT.spec_bytes(), accept);
}

/// A standard answer is accepted: status 101 with `Connection: Upgrade`,
/// `Upgrade: websocket` and the expected `Sec-WebSocket-Accept`, each
/// present once under a name in any case, whatever other lines stand
/// around them and in whatever order.
pub proof fn lemma_standard_response_accepted(h: HeadModel, expected: Seq<char>)
    requires
        h.0 == Some(101u16),
        sole_header(h.1, CONNECTION.spec_bytes(), "Upgrade".spec_bytes()),
        sole_header(h.1, UPGRADE.spec_bytes(), WEBSOCKET.spec_bytes()),
        sole_header(h.1, SEC_WEBSOCKET_ACCEPT.spec_bytes(), encode_utf8(expected)),
    ensures
        head_verdict(h, expected) == Verdict::Valid,
{
    broadcast use vstd::utf8::encode_utf8_valid_utf8, vstd::utf8::encode_utf8_decode_utf8;

    lemma_sole_header_found(h.1, CONNECTION.spec_bytes(), "Upgrade".spec_bytes());
    lemma_sole_header_found(h.1, UPGRADE.spec_bytes(), WEBSOCKET.spec_bytes());
    lemma_sole_header_found(h.1, SEC_WEBSOCKET_ACCEPT.spec_bytes(), encode_utf8(expected));
    let v = "Upgrade"@;
    let t = UPGRADE_TOKEN@;
    assert(decode_utf8("Upgrade".spec_bytes()) == v);
    reveal_strlit("Upgrade");
    reveal_strlit("upgrade");
    assert(v.len() == 7);
    assert(trim_start(v) == v);
    assert(trim_end(v) == v);
    assert(v.subrange(0, 7) =~= v);
    assert(chars_eq_ignore_ascii_case(trim(v.subrange(0, 7)), t));
    reveal_with_fuel(token_scan, 9);
    assert(has_token(v, t));
}

/// The token search finds `upgrade` after other tokens: the value
/// `keep-alive, Upgrade` holds it.
pub proof fn lemma_keep_alive_upgrade()
    ensures
        has_token("keep-alive, Upgrade"@, UPGRADE_TOKEN@),
{
    let v = "keep-alive, Upgrade"@;
    let t = UPGRADE_TOKEN@;
    reveal_strlit("keep-alive, Upgrade");
    reveal_strlit("upgrade");
    assert(v.len() == 19);
    let p = v.subrange(11, 19);
    assert(p.skip(1) =~= v.subrange(12, 19));
    assert(p[0] == v[11]);
    assert(white_space_of(p[0]));
    assert(v.subrange(12, 19)[0] == v[12]);
    assert(trim_start(v.subrange(12, 19)) == v.subrange(12, 19));
    assert(trim_start(p) == v.subrange(12, 19));
    assert(trim_end(v.subrange(12, 19)) == v.subrange(12, 19));
    assert(chars_eq_ignore_ascii_case(trim(p), t));
    reveal_with_fuel(token_scan, 21);
    assert(token_scan(v, t, 11, 11));
    assert(has_token(v, t));
}

// ---------------------------------------------------------------------------
// Buffering the response head

/// The blank line that ends an HTTP head.
pub open spec fn head_end_marker() -> Seq<u8> {
    seq![13u8, 10u8, 13u8, 10u8]
}

/// Whether `needle` occurs in `hay` at `j`.
pub open spec fn occurs_at(hay: Seq<u8>, needle: Seq<u8>, j: int) -> bool {
    0 <= j && j + needle.len() <= hay.len() && hay.subrange(j, j + needle.len()) == needle
}

/// Whether `data` holds the end of an HTTP head.
pub open spec fn has_head_end(data: Seq<u8>) -> bool {
    exists|j: int| occurs_at(data, head_end_marker(), j)
}

/// Whether the head of `data` ends at `e`: the first blank line of `data`
/// ends there.
pub open spec fn is_head_end(data: Seq<u8>, e: int) -> bool {
    e >= 4 && occurs_at(data, head_end_marker(), e - 4) && forall|j: int|
        0 <= j < e - 4 ==> !occurs_at(data, head_end_marker(), j)
}

/// Relies on `memchr::memmem::find`: the position of the first occurrence
/// of `needle` in `hay`.
#[verifier::external_body]
fn find_bytes(hay: &[u8], needle: &[u8]) -> (r: Option<usize>)
    ensures
        match r {
            Some(i) => occurs_at(hay@, needle@, i as int) && forall|j: int|
                0 <= j < i ==> !occurs_at(hay@, needle@, j),
            None => forall|j: int| !occurs_at(hay@, needle@, j),
        },
{
    memchr::memmem::find(hay, needle)
}

/// Collects a response head from the chunks read off the transport.
pub struct ResponseReader {
    buf: Vec<u8>,
    head_len: Option<usize>,
}

impl ResponseReader {
    /// The bytes collected so far.
    pub closed spec fn bytes(&self) -> Seq<u8> {
        self.buf@
    }

    /// Where the head ends, once its blank line has arrived: the length of
    /// the head, blank line included.
    pub closed spec fn head_len(&self) -> Option<usize> {
        self.head_len
    }

    /// The buffer never grows past the limit, and the head's end is known
    /// exactly when its blank line has arrived.
    pub closed spec fn wf(&self) -> bool {
        &&& self.buf@.len() <= MAX_HEADER_BYTES
        &&& match self.head_len {
            None => !has_head_end(self.buf@),
            Some(e) => is_head_end(self.buf@, e as int),
        }
    }

    /// A well-formed reader never holds more than `MAX_HEADER_BYTES`, and
    /// knows where the head ends exactly when its blank line has arrived.
    pub proof fn lemma_wf(&self)
        requires
            self.wf(),
        ensures
            self.bytes().len() <= MAX_HEADER_BYTES,
            match self.head_len() {
                None => !has_head_end(self.bytes()),
                Some(e) => is_head_end(self.bytes(), e as int),
            },
    {
    }

    /// An empty reader.
    pub fn new() -> (r: Self)
        ensures
            r.wf(),
            r.bytes() == Seq::<u8>::empty(),
            r.head_len() is None,
    {
        ResponseReader { buf: Vec::new(), head_len: None }
    }

    /// Whether the blank line that ends the head has arrived.
    pub fn is_complete(&self) -> (r: bool)
        ensures
            r == self.head_len() is Some,
    {
        self.head_len.is_some()
    }

    /// Takes the next chunk read from the transport. An empty chunk means
    /// the peer closed the stream: `Eof`. A chunk that would take the buffer
    /// past `MAX_HEADER_BYTES` is refused with `Oversized` and not kept.
    /// Otherwise the chunk is appended, and the result says whether the head
    /// is now complete.
    pub fn feed(&mut self, chunk: &[u8]) -> (r: Result<bool, UpgradeErr>)
        requires
            old(self).wf(),
            old(self).head_len() is None,
        ensures
            final(self).wf(),
            final(self).bytes().len() <= MAX_HEADER_BYTES,
            match final(self).head_len() {
                None => !has_head_end(final(self).bytes()),
                Some(e) => is_head_end(final(self).bytes(), e as int),
            },
            chunk@.len() == 0 ==> r is Err && r->Err_0 is Eof && *final(self) == *old(self),
            chunk@.len() > 0 && old(self).bytes().len() + chunk@.len() > MAX_HEADER_BYTES ==> r is Err
                && r->Err_0 is Oversized && *final(self) == *old(self),
            chunk@.len() > 0 && old(self).bytes().len() + chunk@.len() <= MAX_HEADER_BYTES ==> {
                &&& final(self).bytes() == old(self).bytes() + chunk@
                &&& r == Ok::<bool, UpgradeErr>(has_head_end(final(self).bytes()))
                &&& (final(self).head_len() is Some <==> has_head_end(final(self).bytes()))
            },
    {
        if chunk.len() == 0 {
            return Err(UpgradeErr::Eof);
        }
        if chunk.len() > MAX_HEADER_BYTES - self.buf.len() {
            return Err(UpgradeErr::Oversized);
        }
        let old_len = self.buf.len();
        let ghost old_bytes = self.buf@;
        let mut i: usize = 0;
        while i < chunk.len()
            invariant
                i <= chunk@.len(),
                self.buf@ == old_bytes + chunk@.take(i as int),
                self.head_len is None,
            decreases chunk@.len() - i,
        {
            self.buf.push(chunk[i]);
            proof {
                assert(self.buf@ =~= old_bytes + chunk@.take(i + 1));
            }
            i = i + 1;
        }
        proof {
            assert(chunk@.take(chunk@.len() as int) =~= chunk@);
        }
        // A blank line that was not in the old bytes ends at most three
        // bytes before where they ended.
        let from: usize = if old_len >= 3 {
            old_len - 3
        } else {
            0
        };
        let marker: [u8; 4] = [13u8, 10u8, 13u8, 10u8];
        let tail = vstd::slice::slice_subrange(self.buf.as_slice(), from, self.buf.len());
        let ghost all = self.buf@;
        proof {
            assert(marker@ =~= head_end_marker());
            assert forall|j: int| 0 <= j < from implies !occurs_at(all, head_end_marker(), j) by {
                assert(all.subrange(j, j + 4) =~= old_bytes.subrange(j, j + 4));
                assert(!occurs_at(old_bytes, head_end_marker(), j));
            }
            assert forall|j: int| from <= j implies #[trigger] occurs_at(all, head_end_marker(), j)
                == occurs_at(tail@, head_end_marker(), j - from) by {
                if j + 4 <= all.len() {
                    assert(all.subrange(j, j + 4) =~= tail@.subrange(j - from, j - from + 4));
                }
            }
        }
        match find_bytes(tail, marker.as_slice()) {
            Some(k) => {
                proof {
                    assert(occurs_at(all, head_end_marker(), from + k));
                    assert forall|j: int| 0 <= j < from + k implies !occurs_at(
                        all,
                        head_end_marker(),
                        j,
                    ) by {
                        if j >= from {
                            assert(!occurs_at(tail@, head_end_marker(), j - from));
                        }
                    }
                }
                self.head_len = Some(from + k + 4);
                Ok(true)
            },
            None => {
                proof {
                    assert forall|j: int| !occurs_at(all, head_end_marker(), j) by {
                        if j >= from {
                            assert(!occurs_at(tail@, head_end_marker(), j - from));
                        }
                    }
                }
                Ok(false)
            },
        }
    }

    /// Checks the collected response against the expected accept value.
    pub fn finish(&self, expected_accept: &str) -> (r: Result<(), UpgradeErr>)
        requires
            self.wf(),
            self.head_len() is Some,
        ensures
            match http_response_of(self.bytes(), MAX_HEADERS as nat) {
                None => r is Err && r->Err_0 is Headers,
                Some(h) => reports(r, head_verdict(h, expected_accept@)),
            },
    {
        validate_response(self.buf.as_slice(), expected_accept)
    }

    /// The bytes that arrived after the head: the start of the WebSocket
    /// stream, which the frame layer must receive first.
    pub fn trailing(&self) -> (r: &[u8])
        requires
            self.wf(),
            self.head_len() is Some,
        ensures
            is_head_end(self.bytes(), self.head_len()->0 as int),
            r@ == self.bytes().skip(self.head_len()->0 as int),
    {
        let e = match self.head_len {
            Some(e) => e,
            None => 0,
        };
        let r = vstd::slice::slice_subrange(self.buf.as_slice(), e, self.buf.len());
        proof {
            assert(r@ =~= self.bytes().skip(e as int));
        }
        r
    }
}

} // verus!
