//! Address validation of new connections.

use vstd::prelude::*;

use crate::bytes::append_bytes;
use crate::bytes::bytes_of;
use crate::net::SocketAddr;

verus! {

/// Length of a connection identifier that the server chooses.
pub const CONN_ID_LEN: usize = 16;

/// Largest length of what is authenticated.
pub const MAX_INPUT_LEN: u64 = 0x1000_0000_0000_0000;

/// The text `quiche`, with which a token starts.
pub open spec fn token_prefix() -> Seq<u8> {
    seq![113u8, 117u8, 105u8, 99u8, 104u8, 101u8]
}

/// The token of a client with the original connection identifier `dcid`: the
/// prefix, the address of the client and the identifier.
pub open spec fn token_of(dcid: Seq<u8>, src: SocketAddr) -> Seq<u8> {
    token_prefix() + src.ip.octets() + dcid
}

/// The connection identifier in a token of the client `src`, where it is one.
pub open spec fn validated(src: SocketAddr, token: Seq<u8>) -> Option<Seq<u8>> {
    let head = token_prefix() + src.ip.octets();
    if token.len() >= head.len() && token.take(head.len() as int) == head {
        Some(token.skip(head.len() as int))
    } else {
        None
    }
}

fn prefix() -> (r: Vec<u8>)
    ensures
        r@ == token_prefix(),
{
    let mut r: Vec<u8> = Vec::new();
    r.push(113);
    r.push(117);
    r.push(105);
    r.push(99);
    r.push(104);
    r.push(101);
    assert(r@ =~= token_prefix());
    r
}

/// Generates a stateless retry token. The token is not authenticated.
pub fn mint_token(dcid: &Vec<u8>, src: &SocketAddr) -> (token: Vec<u8>)
    ensures
        token@ == token_of(dcid@, *src),
{
    let mut token: Vec<u8> = prefix();
    append_bytes(&mut token, &src.ip.to_bytes());
    append_bytes(&mut token, dcid);
    token
}

/// Validates a stateless retry token: checks the prefix and the address of the
/// client. Returns the original connection identifier.
pub fn validate_token(src: &SocketAddr, token: &Vec<u8>) -> (r: Option<Vec<u8>>)
    ensures
        r is Some <==> validated(*src, token@) is Some,
        r matches Some(id) ==> validated(*src, token@) == Some(id@),
{
    let mut head: Vec<u8> = prefix();
    append_bytes(&mut head, &src.ip.to_bytes());
    if token.len() < head.len() {
        return None;
    }
    let mut i: usize = 0;
    while i < head.len()
        invariant
            i <= head@.len() <= token@.len(),
            forall|k: int| 0 <= k < i ==> head@[k] == token@[k],
            head@ == token_prefix() + src.ip.octets(),
        decreases head@.len() - i,
    {
        if head[i] != token[i] {
            assert(token@.take(head@.len() as int)[i as int] == token@[i as int]);
            return None;
        }
        i += 1;
    }
    assert(token@.take(head@.len() as int) =~= head@);
    let id: Vec<u8> = bytes_of(token, head.len(), token.len());
    assert(id@ =~= token@.skip(head@.len() as int));
    Some(id)
}

/// A token that was minted for a client is valid for that client, and gives the
/// connection identifier back.
pub proof fn minted_token_is_valid(dcid: Seq<u8>, src: SocketAddr)
    ensures
        validated(src, token_of(dcid, src)) == Some(dcid),
{
    let head = token_prefix() + src.ip.octets();
    assert(token_of(dcid, src).take(head.len() as int) =~= head);
    assert(token_of(dcid, src).skip(head.len() as int) =~= dcid);
}

/// A token is valid for clients with the same address only, among those with
/// addresses of the same family.
pub proof fn token_is_bound_to_the_address(dcid: Seq<u8>, src: SocketAddr, other: SocketAddr)
    requires
        src.ip.octets().len() == other.ip.octets().len(),
        src.ip.octets() != other.ip.octets(),
    ensures
        validated(other, token_of(dcid, src)) is None,
{
    let p = token_prefix();
    let a = src.ip.octets();
    let b = other.ip.octets();
    let t = token_of(dcid, src);
    let head = p + b;
    if t.take(head.len() as int) == head {
        assert forall|i: int| 0 <= i < a.len() implies a[i] == b[i] by {
            assert(t.take(head.len() as int)[p.len() + i] == a[i]);
            assert(head[p.len() + i] == b[i]);
        }
        assert(a =~= b);
    }
}

/// The HMAC-SHA256 tag of `data` under the key `seed`.
pub uninterp spec fn hmac_sha256(seed: Seq<u8>, data: Seq<u8>) -> Seq<u8>;

/// The function `hmac::sign` of `ring`, with the key that `hmac::Key::new` makes
/// of `seed` for the algorithm `HMAC_SHA256`. The tag has 32 bytes and depends on
/// the key and the data alone.
#[verifier::external_body]
fn sign(seed: &Vec<u8>, data: &Vec<u8>) -> (tag: Vec<u8>)
    requires
        seed@.len() <= MAX_INPUT_LEN,
        data@.len() <= MAX_INPUT_LEN,
    ensures
        tag@ == hmac_sha256(seed@, data@),
        tag@.len() == 32,
{
    let key = ring::hmac::Key::new(ring::hmac::HMAC_SHA256, seed);
    ring::hmac::sign(&key, data).as_ref().to_vec()
}

/// The connection identifier that a tag stands for: its first bytes.
pub fn conn_id_of_tag(tag: &Vec<u8>) -> (id: Vec<u8>)
    requires
        tag@.len() >= CONN_ID_LEN,
    ensures
        id@ == tag@.take(CONN_ID_LEN as int),
        id@.len() == CONN_ID_LEN,
{
    let id: Vec<u8> = bytes_of(tag, 0, CONN_ID_LEN);
    assert(id@ =~= tag@.take(CONN_ID_LEN as int));
    id
}

/// The connection identifier that the server chooses for a client that uses the
/// identifier `dcid`.
pub fn conn_id(seed: &Vec<u8>, dcid: &Vec<u8>) -> (id: Vec<u8>)
    requires
        seed@.len() <= MAX_INPUT_LEN,
        dcid@.len() <= MAX_INPUT_LEN,
    ensures
        id@ == hmac_sha256(seed@, dcid@).take(CONN_ID_LEN as int),
        id@ == hmac_sha256(seed@, dcid@).take(16),
        id@.len() == CONN_ID_LEN,
{
    let tag: Vec<u8> = sign(seed, dcid);
    conn_id_of_tag(&tag)
}

/// A token is the word `quiche`, the address of the client and its connection identifier, one
/// after the other.
pub proof fn tokens_hold_address_and_identifier(dcid: Seq<u8>, src: SocketAddr, i: int)
    ensures
        ({
            let t = token_of(dcid, src);
            let a = src.ip.octets();
            &&& t.len() == 6 + a.len() + dcid.len()
            &&& t[0] == 0x71 && t[1] == 0x75 && t[2] == 0x69 && t[3] == 0x63 && t[4] == 0x68
                && t[5] == 0x65
            &&& 0 <= i < a.len() ==> t[6 + i] == a[i]
            &&& 0 <= i < dcid.len() ==> t[6 + a.len() + i] == dcid[i]
        }),
{
}

/// A token is valid for a client exactly if it is the one that is minted for the client and some
/// connection identifier, which it gives back.
pub proof fn only_minted_tokens_are_valid(src: SocketAddr, token: Seq<u8>, dcid: Seq<u8>)
    ensures
        validated(src, token) == Some(dcid) <==> token == token_of(dcid, src),
{
    let head = token_prefix() + src.ip.octets();
    minted_token_is_valid(dcid, src);
    if validated(src, token) == Some(dcid) {
        assert(token =~= token.take(head.len() as int) + token.skip(head.len() as int));
    }
}

} // verus!
