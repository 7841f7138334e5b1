//! Errors of the opening handshake, and the handshake key.
use vstd::prelude::*;
use vstd::string::*;
use vstd::utf8::encode_utf8;

use base64::Engine;
use rand::RngCore;
use sha1::Digest;

verus! {

#[verifier::external_type_specification]
#[verifier::external_body]
pub struct ExIoError(std::io::Error);

#[verifier::external_type_specification]
#[verifier::external_body]
pub struct ExUtf8Error(std::str::Utf8Error);

/// Why an opening handshake failed.
#[derive(Debug)]
pub enum UpgradeErr {
    /// The peer closed the stream before the response headers were complete.
    Eof,
    /// The response headers grew past the size limit.
    Oversized,
    /// The status code is not 101.
    Status,
    /// A required header is missing or wrong, or the response did not parse.
    Headers,
    /// `Sec-WebSocket-Accept` differs from the expected digest.
    Accept,
    /// The transport failed, or the request could not be laid out.
    Io(std::io::Error),
    /// A header value that had to be text is not UTF-8.
    Utf8(std::str::Utf8Error),
}

/// Relies on `std::io::Error::new`: builds an error of kind `Other` that
/// carries `msg`.
#[verifier::external_body]
pub(crate) fn other_io_error(msg: &str) -> std::io::Error {
    std::io::Error::new(std::io::ErrorKind::Other, msg.to_string())
}

/// The GUID that RFC 6455 appends to the key before hashing.
pub const WS_GUID: &'static str = "258EAFA5-E914-47DA-95CA-C5AB0DC85B11";

/// Standard, padded base64 of a byte string.
pub uninterp spec fn base64_of(b: Seq<u8>) -> Seq<char>;

/// The SHA-1 digest of a byte string.
pub uninterp spec fn sha1_of(b: Seq<u8>) -> Seq<u8>;

/// Relies on base64's `STANDARD` engine and `Engine::encode`: the padded
/// base64 text of `b`, four characters for every three bytes begun. It
/// panics only when that length overflows a `usize`.
#[verifier::external_body]
fn base64_encode(b: &[u8]) -> (r: String)
    requires
        4 * ((b@.len() + 2) / 3) <= usize::MAX,
    ensures
        r@ == base64_of(b@),
        r@.len() == 4 * ((b@.len() + 2) / 3),
{
    base64::engine::general_purpose::STANDARD.encode(b)
}

/// Relies on sha1's `Sha1` through `Digest::digest`: the 20-byte digest of
/// `data`.
#[verifier::external_body]
fn sha1_digest(data: &[u8]) -> (r: Vec<u8>)
    ensures
        r@ == sha1_of(data@),
        r@.len() == 20,
{
    sha1::Sha1::digest(data).to_vec()
}

/// Relies on rand's thread-local generator (`rand::rng`) and
/// `RngCore::fill_bytes`: sixteen random bytes, of which nothing is known.
#[verifier::external_body]
fn random_nonce() -> [u8; 16] {
    let mut b = [0u8; 16];
    rand::rng().fill_bytes(&mut b);
    b
}

/// The `Sec-WebSocket-Accept` value that answers the key `key`: base64 of
/// the SHA-1 digest of the key's bytes followed by the GUID.
pub open spec fn accept_spec(key: Seq<char>) -> Seq<char> {
    base64_of(sha1_of(encode_utf8(key) + encode_utf8(WS_GUID@)))
}

/// A handshake key and the answer the server must give to it.
pub struct ClientKey {
    /// The `Sec-WebSocket-Key` sent with the request.
    pub sec_websocket_key: String,
    /// The `Sec-WebSocket-Accept` value expected back.
    pub expected_accept: String,
}

/// The `Sec-WebSocket-Accept` value that answers `key`.
pub fn accept_key(key: &str) -> (r: String)
    ensures
        r@ == accept_spec(key@),
        r@.len() == 28,
{
    let mut data: Vec<u8> = Vec::new();
    let kb = key.as_bytes();
    let gb = WS_GUID.as_bytes();
    let mut i: usize = 0;
    while i < kb.len()
        invariant
            i <= kb@.len(),
            data@ == kb@.take(i as int),
        decreases kb@.len() - i,
    {
        data.push(kb[i]);
        proof {
            assert(data@ =~= kb@.take(i + 1));
        }
        i = i + 1;
    }
    let mut j: usize = 0;
    while j < gb.len()
        invariant
            j <= gb@.len(),
            kb@.len() == data@.len() - j,
            data@ == kb@ + gb@.take(j as int),
        decreases gb@.len() - j,
    {
        data.push(gb[j]);
        proof {
            assert(data@ =~= kb@ + gb@.take(j + 1));
        }
        j = j + 1;
    }
    proof {
        assert(kb@.take(kb@.len() as int) =~= kb@);
        assert(gb@.take(gb@.len() as int) =~= gb@);
    }
    let digest = sha1_digest(data.as_slice());
    base64_encode(digest.as_slice())
}

/// The handshake key for the sixteen nonce bytes `nonce`: their base64 text,
/// with the answer it asks for.
pub fn client_key_from_nonce(nonce: &[u8; 16]) -> (k: ClientKey)
    ensures
        k.sec_websocket_key@ == base64_of(nonce@),
        k.expected_accept@ == accept_spec(k.sec_websocket_key@),
        k.sec_websocket_key@.len() == 24,
        k.expected_accept@.len() == 28,
{
    let sec_websocket_key = base64_encode(nonce.as_slice());
    let expected_accept = accept_key(sec_websocket_key.as_str());
    ClientKey { sec_websocket_key, expected_accept }
}

/// A fresh handshake key from sixteen random bytes, with the answer it asks
/// for.
pub fn generate_client_key() -> (k: ClientKey)
    ensures
        exists|nonce: Seq<u8>|
            nonce.len() == 16 && k.sec_websocket_key@ == #[trigger] base64_of(nonce),
        k.expected_accept@ == accept_spec(k.sec_websocket_key@),
        k.sec_websocket_key@.len() == 24,
        k.expected_accept@.len() == 28,
{
    let nonce = random_nonce();
    let k = client_key_from_nonce(&nonce);
    proof {
        assert(nonce@.len() == 16);
    }
    k
}

} // verus!
