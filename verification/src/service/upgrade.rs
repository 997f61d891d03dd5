//! The WebSocket opening handshake.
use sha1::Digest;
use vstd::prelude::*;
use vstd::string::StringSliceAdditionalSpecFns;

use super::error::HttpError;

verus! {

/// The key that RFC 6455 appends to a client's key before hashing it.
pub const WEBSOCKET_GUID: &'static str = "258EAFA5-E914-47DA-95CA-C5AB0DC85B11";

/// The SHA-1 digest of `data`.
pub uninterp spec fn sha1_of(data: Seq<u8>) -> Seq<u8>;

/// The character of the standard Base64 alphabet for a 6-bit value:
/// 'A'..'Z', 'a'..'z', '0'..'9', '+', '/'.
pub open spec fn base64_digit(v: int) -> char {
    if v < 26 {
        (65 + v) as char
    } else if v < 52 {
        (97 + v - 26) as char
    } else if v < 62 {
        (48 + v - 52) as char
    } else if v == 62 {
        '+'
    } else {
        '/'
    }
}

/// `data` encoded in standard Base64 with padding: each group of three
/// bytes becomes four characters of six bits each, and a last group of
/// one or two bytes is padded with '='.
pub open spec fn base64_of(data: Seq<u8>) -> Seq<char>
    decreases data.len(),
{
    let b0 = data[0] as int;
    let b1 = data[1] as int;
    let b2 = data[2] as int;
    if data.len() == 0 {
        Seq::empty()
    } else if data.len() == 1 {
        seq![base64_digit(b0 / 4), base64_digit((b0 % 4) * 16), '=', '=']
    } else if data.len() == 2 {
        seq![base64_digit(b0 / 4), base64_digit((b0 % 4) * 16 + b1 / 16), base64_digit((b1 % 16) * 4), '=']
    } else {
        seq![
            base64_digit(b0 / 4),
            base64_digit((b0 % 4) * 16 + b1 / 16),
            base64_digit((b1 % 16) * 4 + b2 / 64),
            base64_digit(b2 % 64),
        ] + base64_of(data.skip(3))
    }
}

/// Calls `sha1::Sha1::digest` (the `Digest` trait of the `sha1` crate):
/// the SHA-1 digest of `data`, named `sha1_of`.
#[verifier::external_body]
fn sha1_digest(data: &[u8]) -> (r: Vec<u8>)
    ensures
        r@ == sha1_of(data@),
{
    sha1::Sha1::digest(data).to_vec()
}

/// Calls `base64::encode`: `data` in the standard Base64 alphabet with
/// padding, as `base64_of` states it.
#[verifier::external_body]
fn base64_encode(data: &[u8]) -> (r: String)
    ensures
        r@ == base64_of(data@),
{
    base64::encode(data)
}

/// The lower case of an ASCII letter, as a code point; other characters
/// are left as they are.
pub open spec fn ascii_lower(c: char) -> u32 {
    if 65 <= (c as u32) <= 90 {
        (c as u32 + 32) as u32
    } else {
        c as u32
    }
}

/// `a` and `b` are equal when ASCII letters are compared without case.
pub open spec fn eq_ignore_ascii_case(a: Seq<char>, b: Seq<char>) -> bool {
    a.len() == b.len() && forall|i: int| 0 <= i < a.len() ==> ascii_lower(#[trigger] a[i]) == ascii_lower(b[i])
}

fn lower(c: char) -> (r: u32)
    ensures
        r == ascii_lower(c),
{
    let v = c as u32;
    if 65 <= v && v <= 90 {
        v + 32
    } else {
        v
    }
}

/// Whether `a` and `b` are equal when ASCII letters are compared
/// without case.
pub fn str_eq_ignore_ascii_case(a: &str, b: &str) -> (r: bool)
    ensures
        r == eq_ignore_ascii_case(a@, b@),
{
    let n = a.unicode_len();
    if n != b.unicode_len() {
        return false;
    }
    let mut i: usize = 0;
    while i < n
        invariant
            0 <= i <= n,
            n == a@.len(),
            n == b@.len(),
            forall|j: int| 0 <= j < i ==> ascii_lower(#[trigger] a@[j]) == ascii_lower(b@[j]),
        decreases n - i,
    {
        if lower(a.get_char(i)) != lower(b.get_char(i)) {
            return false;
        }
        i = i + 1;
    }
    true
}

/// The value of an `Upgrade` header asks for a WebSocket: "websocket"
/// in any case. A missing header, or one that is not visible ASCII
/// (`None`), does not.
pub fn is_websocket_upgrade(upgrade: Option<&str>) -> (r: bool)
    ensures
        r == (upgrade matches Some(v) && eq_ignore_ascii_case("websocket"@, v@)),
{
    match upgrade {
        Some(v) => str_eq_ignore_ascii_case("websocket", v),
        None => false,
    }
}

/// The `Sec-WebSocket-Accept` value for a client's key: the Base64 of
/// the SHA-1 digest of the key followed by `WEBSOCKET_GUID`.
pub fn accept_key(key: &[u8]) -> (r: String)
    ensures
        r@ == base64_of(sha1_of(key@ + WEBSOCKET_GUID.spec_bytes())),
{
    let guid = WEBSOCKET_GUID.as_bytes();
    let mut data: Vec<u8> = Vec::new();
    for i in 0..key.len()
        invariant
            data@ == key@.take(i as int),
    {
        data.push(key[i]);
        assert(key@.take(i + 1) =~= key@.take(i as int).push(key@[i as int]));
    }
    assert(key@.take(key.len() as int) =~= key@);
    for i in 0..guid.len()
        invariant
            data@ == key@ + guid@.take(i as int),
            guid@ == WEBSOCKET_GUID.spec_bytes(),
    {
        data.push(guid[i]);
        assert(guid@.take(i + 1) =~= guid@.take(i as int).push(guid@[i as int]));
        assert(key@ + guid@.take(i + 1) =~= (key@ + guid@.take(i as int)).push(guid@[i as int]));
    }
    assert(guid@.take(guid.len() as int) =~= guid@);
    let digest = sha1_digest(data.as_slice());
    base64_encode(digest.as_slice())
}

/// The headers of a request open a WebSocket.
pub open spec fn handshake_ok(upgrade: Option<&str>, version: Option<&str>, key: Option<&[u8]>) -> bool {
    &&& (upgrade matches Some(u) && eq_ignore_ascii_case("websocket"@, u@))
    &&& (version matches Some(v) && v@ == "13"@)
    &&& key is Some
}

/// Checks a WebSocket opening handshake: the `Upgrade` header asks for
/// a WebSocket, the `Sec-WebSocket-Version` is "13", and a
/// `Sec-WebSocket-Key` is given (headers that are not visible ASCII are
/// passed as `None`). Gives the `Sec-WebSocket-Accept` value, or
/// `HttpError::BadRequest`.
pub fn websocket_accept(upgrade: Option<&str>, version: Option<&str>, key: Option<&[u8]>) -> (r: Result<
    String,
    HttpError,
>)
    ensures
        handshake_ok(upgrade, version, key) ==> (r matches Ok(a) && a@ == base64_of(
            sha1_of(key->Some_0@ + WEBSOCKET_GUID.spec_bytes()),
        )),
        !handshake_ok(upgrade, version, key) ==> r == Err::<String, HttpError>(HttpError::BadRequest),
{
    let upgrade_ok = is_websocket_upgrade(upgrade);
    let version_ok = match version {
        Some(v) => String::from_str(v) == String::from_str("13"),
        None => false,
    };
    match key {
        Some(k) => {
            if upgrade_ok && version_ok {
                Ok(accept_key(k))
            } else {
                Err(HttpError::BadRequest)
            }
        },
        None => Err(HttpError::BadRequest),
    }
}

/// Two strings are equal ignoring ASCII case exactly when they have the
/// same length and, position by position, their characters are equal or
/// are the upper and lower case of one ASCII letter.
pub proof fn lemma_ignore_case_chars(a: Seq<char>, b: Seq<char>)
    ensures
        eq_ignore_ascii_case(a, b) <==> a.len() == b.len() && forall|i: int|
            0 <= i < a.len() ==> (#[trigger] a[i] as u32) == (b[i] as u32) || (65 <= (a[i] as u32) <= 90 && (b[i] as u32) == (a[i] as u32)
                + 32) || (65 <= (b[i] as u32) <= 90 && (a[i] as u32) == (b[i] as u32) + 32),
{
    assert forall|x: char, y: char| #[trigger] ascii_lower(x) == #[trigger] ascii_lower(y) <==> ((x as u32) == (y as u32) || (65 <= (x as u32)
        <= 90 && (y as u32) == (x as u32) + 32) || (65 <= (y as u32) <= 90 && (x as u32) == (y as u32) + 32)) by {}
}

/// A handshake is accepted only with a key, the version "13", and an
/// upgrade to "websocket" written in any case; any other request is
/// refused as a bad request, whatever else it carries.
pub proof fn lemma_handshake_needs(upgrade: Option<&str>, version: Option<&str>, key: Option<&[u8]>)
    ensures
        handshake_ok(upgrade, version, key) <==> (key is Some && (version matches Some(v) && v@ == "13"@) && (
        upgrade matches Some(u) && u@.len() == 9 && forall|i: int|
            0 <= i < 9 ==> (#[trigger] u@[i] as u32) == ("websocket"@[i] as u32) || (u@[i] as u32) + 32 == ("websocket"@[i] as u32))),
{
    reveal_strlit("websocket");
    if upgrade is Some {
        let u = upgrade->Some_0@;
        lemma_ignore_case_chars("websocket"@, u);
        let w = "websocket"@;
        assert forall|i: int| 0 <= i < 9 implies !(65 <= (#[trigger] w[i] as u32) <= 90) by {}
    }
}

} // verus!
