//! Parsing of `ws://` and `wss://` addresses into connection parameters.
use vstd::prelude::*;
use vstd::string::*;

use crate::text::chars_of;

verus! {

/// The transport that an address asks for.
#[derive(Debug, Clone, Copy, PartialEq, Eq, Structural)]
pub enum Scheme {
    /// `ws://`: a plain byte stream.
    Ws,
    /// `wss://`: a TLS-secured byte stream.
    Wss,
}

/// Connection parameters taken from a WebSocket address.
#[derive(Debug, Clone)]
pub struct WsUrl {
    pub scheme: Scheme,
    pub host: String,
    pub port: u16,
    pub path_and_query: String,
}

/// Why an address was refused.
#[derive(Debug, Clone, Copy, PartialEq, Eq, Structural)]
pub enum UrlError {
    /// The address starts with neither `ws://` nor `wss://`.
    Scheme,
    /// The text after the last `:` of the host part is not a 16-bit port.
    Port,
}

/// The mathematical content of a parsed address.
pub struct UrlModel {
    pub scheme: Scheme,
    pub host: Seq<char>,
    pub port: u16,
    pub path_and_query: Seq<char>,
}

impl WsUrl {
    pub open spec fn model(&self) -> UrlModel {
        UrlModel {
            scheme: self.scheme,
            host: self.host@,
            port: self.port,
            path_and_query: self.path_and_query@,
        }
    }
}

pub open spec fn ws_prefix() -> Seq<char> {
    seq!['w', 's', ':', '/', '/']
}

pub open spec fn wss_prefix() -> Seq<char> {
    seq!['w', 's', 's', ':', '/', '/']
}

pub open spec fn default_port(scheme: Scheme) -> u16 {
    match scheme {
        Scheme::Ws => 80,
        Scheme::Wss => 443,
    }
}

/// Index of the first `c` in `s` at or after `i`.
pub open spec fn find_from(s: Seq<char>, c: char, i: int) -> Option<int>
    decreases s.len() - i,
{
    if i < 0 || i >= s.len() {
        None
    } else if s[i] == c {
        Some(i)
    } else {
        find_from(s, c, i + 1)
    }
}

/// Index of the last `c` in `s` before `i`.
pub open spec fn rfind_before(s: Seq<char>, c: char, i: int) -> Option<int>
    decreases i,
{
    if i <= 0 || i > s.len() {
        None
    } else if s[i - 1] == c {
        Some(i - 1)
    } else {
        rfind_before(s, c, i - 1)
    }
}

pub open spec fn is_digit(c: char) -> bool {
    '0' <= c && c <= '9'
}

/// The number written by the decimal digits `s`.
pub open spec fn digits_value(s: Seq<char>) -> nat
    decreases s.len(),
{
    if s.len() == 0 {
        0
    } else {
        digits_value(s.drop_last()) * 10 + (s.last() as nat - '0' as nat) as nat
    }
}

/// One or more decimal digits whose value is at most 65535.
pub open spec fn digits_u16(d: Seq<char>) -> Option<u16> {
    if d.len() > 0 && (forall|i: int| 0 <= i < d.len() ==> is_digit(#[trigger] d[i]))
        && digits_value(d) <= 65535 {
        Some(digits_value(d) as u16)
    } else {
        None
    }
}

/// An unsigned 16-bit number in decimal: an optional `+`, then one or more
/// digits whose value is at most 65535.
pub open spec fn port_spec(s: Seq<char>) -> Option<u16> {
    if s.len() > 0 && s[0] == '+' {
        digits_u16(s.skip(1))
    } else {
        digits_u16(s)
    }
}

/// Host and port from the host-port segment of an address.
pub open spec fn host_port_spec(hp: Seq<char>, scheme: Scheme) -> Result<(Seq<char>, u16), UrlError> {
    match rfind_before(hp, ':', hp.len() as int) {
        Some(j) => match port_spec(hp.skip(j + 1)) {
            Some(p) => Ok((hp.take(j), p)),
            None => Err(UrlError::Port),
        },
        None => Ok((hp, default_port(scheme))),
    }
}

/// The scheme an address starts with, and the length of its prefix.
pub open spec fn scheme_spec(s: Seq<char>) -> Option<(Scheme, int)> {
    if s.len() >= 6 && s.take(6) == wss_prefix() {
        Some((Scheme::Wss, 6))
    } else if s.len() >= 5 && s.take(5) == ws_prefix() {
        Some((Scheme::Ws, 5))
    } else {
        None
    }
}

/// What an address parses to.
pub open spec fn url_spec(s: Seq<char>) -> Result<UrlModel, UrlError> {
    match scheme_spec(s) {
        None => Err(UrlError::Scheme),
        Some((scheme, k)) => {
            let rest = s.skip(k);
            let (hp, path) = match find_from(rest, '/', 0) {
                Some(i) => (rest.take(i), rest.skip(i)),
                None => (rest, seq!['/']),
            };
            match host_port_spec(hp, scheme) {
                Ok((host, port)) => Ok(UrlModel { scheme, host, port, path_and_query: path }),
                Err(e) => Err(e),
            }
        },
    }
}

fn split_scheme(c: &Vec<char>) -> (r: Option<(Scheme, usize)>)
    ensures
        match r {
            Some((sch, k)) => scheme_spec(c@) == Some((sch, k as int)),
            None => scheme_spec(c@) is None,
        },
{
    let n = c.len();
    let ghost s = c@;
    if n >= 6 && c[0] == 'w' && c[1] == 's' && c[2] == 's' && c[3] == ':' && c[4] == '/' && c[5]
        == '/' {
        proof {
            assert(s.take(6) =~= wss_prefix());
        }
        Some((Scheme::Wss, 6))
    } else if n >= 5 && c[0] == 'w' && c[1] == 's' && c[2] == ':' && c[3] == '/' && c[4] == '/' {
        proof {
            assert(s.take(5) =~= ws_prefix());
            if s.len() >= 6 {
                assert(s.take(6)[2] != wss_prefix()[2]);
            }
        }
        Some((Scheme::Ws, 5))
    } else {
        proof {
            if s.len() >= 6 && s.take(6) == wss_prefix() {
                assert forall|k: int| 0 <= k < 6 implies s[k] == wss_prefix()[k] by {
                    assert(s.take(6)[k] == s[k]);
                }
            }
            if s.len() >= 5 && s.take(5) == ws_prefix() {
                assert forall|k: int| 0 <= k < 5 implies s[k] == ws_prefix()[k] by {
                    assert(s.take(5)[k] == s[k]);
                }
            }
        }
        None
    }
}

/// Position of the first `/` in `c[from..]`, or the length of `c`.
fn first_slash(c: &Vec<char>, from: usize) -> (r: usize)
    requires
        from <= c@.len(),
    ensures
        from <= r <= c@.len(),
        find_from(c@.skip(from as int), '/', 0) == (if r < c@.len() {
            Some(r - from)
        } else {
            None::<int>
        }),
{
    let n = c.len();
    let ghost rest = c@.skip(from as int);
    let mut i: usize = from;
    while i < n && c[i] != '/'
        invariant
            from <= i <= n,
            n == c@.len(),
            rest == c@.skip(from as int),
            find_from(rest, '/', 0) == find_from(rest, '/', i - from),
        decreases n - i,
    {
        proof {
            assert(rest[i - from] == c@[i as int]);
        }
        i = i + 1;
    }
    proof {
        if i < n {
            assert(rest[i - from] == c@[i as int]);
        }
    }
    i
}

/// One past the position of the last `:` in `c[from..to]`, or `from`.
fn after_last_colon(c: &Vec<char>, from: usize, to: usize) -> (r: usize)
    requires
        from <= to <= c@.len(),
    ensures
        from <= r <= to,
        rfind_before(c@.subrange(from as int, to as int), ':', to - from) == (if r > from {
            Some(r - 1 - from)
        } else {
            None::<int>
        }),
{
    let ghost hp = c@.subrange(from as int, to as int);
    let mut j: usize = to;
    while j > from && c[j - 1] != ':'
        invariant
            from <= j <= to <= c@.len(),
            hp == c@.subrange(from as int, to as int),
            rfind_before(hp, ':', to - from) == rfind_before(hp, ':', j - from),
        decreases j,
    {
        proof {
            assert(hp[j - 1 - from] == c@[j - 1]);
        }
        j = j - 1;
    }
    proof {
        if j > from {
            assert(hp[j - 1 - from] == c@[j - 1]);
        }
    }
    j
}

/// Parses a decimal port number written in `c[from..to]`.
fn parse_port(c: &Vec<char>, from: usize, to: usize) -> (r: Option<u16>)
    requires
        from <= to <= c@.len(),
    ensures
        r == port_spec(c@.subrange(from as int, to as int)),
{
    let ghost s = c@.subrange(from as int, to as int);
    let start: usize = if from < to && c[from] == '+' {
        from + 1
    } else {
        from
    };
    let ghost d = c@.subrange(start as int, to as int);
    proof {
        if from < to {
            assert(s[0] == c@[from as int]);
        }
        if from < to && c@[from as int] == '+' {
            assert(d =~= s.skip(1));
        } else {
            assert(d =~= s);
        }
    }
    if start == to {
        return None;
    }
    let mut v: u32 = 0;
    let mut over = false;
    let mut i: usize = start;
    while i < to
        invariant
            start <= i <= to <= c@.len(),
            d == c@.subrange(start as int, to as int),
            s == c@.subrange(from as int, to as int),
            d == (if s.len() > 0 && s[0] == '+' { s.skip(1) } else { s }),
            forall|k: int| start <= k < i ==> is_digit(#[trigger] c@[k]),
            !over ==> v as nat == digits_value(c@.subrange(start as int, i as int)),
            !over ==> v <= 65535,
            over ==> digits_value(c@.subrange(start as int, i as int)) > 65535,
        decreases to - i,
    {
        let ch = c[i];
        if !('0' <= ch && ch <= '9') {
            proof {
                assert(d[i - start] == ch);
                assert(!is_digit(d[i - start]));
            }
            return None;
        }
        proof {
            let p = c@.subrange(start as int, i as int + 1);
            assert(p.drop_last() =~= c@.subrange(start as int, i as int));
            assert(p.last() == ch);
        }
        if !over {
            let dig = (ch as u32) - ('0' as u32);
            v = v * 10 + dig;
            if v > 65535 {
                over = true;
            }
        }
        i = i + 1;
    }
    proof {
        assert(c@.subrange(start as int, to as int) =~= d);
        assert forall|k: int| 0 <= k < d.len() implies is_digit(#[trigger] d[k]) by {
            assert(d[k] == c@[start + k]);
        }
    }
    if over {
        None
    } else {
        Some(v as u16)
    }
}

/// Splits a `ws://` or `wss://` address into scheme, host, port and path.
///
/// The path is everything from the first `/` after the scheme on (`/` when
/// there is none); the port follows the last `:` of what precedes it, and is
/// 80 or 443 by scheme when there is no `:`.
pub fn parse_ws_or_wss(input: &str) -> (r: Result<WsUrl, UrlError>)
    ensures
        match r {
            Ok(u) => url_spec(input@) == Ok::<UrlModel, UrlError>(u.model()),
            Err(e) => url_spec(input@) == Err::<UrlModel, UrlError>(e),
        },
{
    let c = chars_of(input);
    let n = c.len();
    let ghost s = input@;
    let (scheme, rest_start) = match split_scheme(&c) {
        Some(p) => p,
        None => {
            return Err(UrlError::Scheme);
        },
    };
    let ghost rest = s.skip(rest_start as int);
    let hp_end = first_slash(&c, rest_start);
    let ghost hp = c@.subrange(rest_start as int, hp_end as int);
    proof {
        if hp_end < n {
            assert(hp =~= rest.take(hp_end - rest_start));
        } else {
            assert(hp =~= rest);
        }
    }
    let j = after_last_colon(&c, rest_start, hp_end);
    let (host_end, port) = if j > rest_start {
        proof {
            assert(hp.skip(j - rest_start) =~= c@.subrange(j as int, hp_end as int));
            assert(hp.take(j - 1 - rest_start) =~= c@.subrange(rest_start as int, j - 1));
        }
        match parse_port(&c, j, hp_end) {
            Some(p) => (j - 1, p),
            None => {
                return Err(UrlError::Port);
            },
        }
    } else {
        let p: u16 = match scheme {
            Scheme::Ws => 80,
            Scheme::Wss => 443,
        };
        (hp_end, p)
    };
    let host = input.substring_char(rest_start, host_end).to_owned();
    let path_and_query = if hp_end < n {
        proof {
            assert(rest.skip(hp_end - rest_start) =~= c@.subrange(hp_end as int, n as int));
        }
        input.substring_char(hp_end, n).to_owned()
    } else {
        let p = "/".to_owned();
        proof {
            reveal_strlit("/");
            assert(p@ =~= seq!['/']);
        }
        p
    };
    proof {
        assert(host@ =~= c@.subrange(rest_start as int, host_end as int));
    }
    Ok(WsUrl { scheme, host, port, path_and_query })
}

} // verus!
