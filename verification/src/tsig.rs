//! TSIG (RFC 8945) authentication: key material, MAC computation, the
//! digest octets, request verification and the per-request authentication
//! state machine.
//!
//! The algorithm is fixed at HMAC-SHA512. The MAC itself, the random secret
//! and the base64 text of the key files come from outside crates through
//! the trusted declarations below. Everything else is verified: the exact
//! octets a MAC covers (the stripped request plus the TSIG variables; the
//! length-prefixed request MAC before a response; the chained prior MAC and
//! timers of a sequence envelope), the wire form of the TSIG record
//! appended to a signed response, and every decision — key lookup, MAC
//! comparison, the time window, the scope rule.

use base64::Engine;
use ring::rand::SecureRandom;
use vstd::prelude::*;

use crate::error::Error;
use crate::error::ErrorKind;
use crate::key::Key;
use crate::key::KeyFile;
use crate::key::KeyStore;
use crate::key::Keys;
use crate::names;

verus! {

/// The standard-alphabet, padded base64 text of a byte string.
pub uninterp spec fn b64_of(s: Seq<u8>) -> Seq<u8>;

/// The HMAC-SHA512 of `data` under `key`.
pub uninterp spec fn hmac_sha512_of(key: Seq<u8>, data: Seq<u8>) -> Seq<u8>;

/// Relies on base64's standard engine: `encode` returns the padded base64
/// text of its input, a function of the input bytes alone.
#[verifier::external_body]
pub fn b64_encode(b: &Vec<u8>) -> (r: Vec<u8>)
    ensures
        r@ == b64_of(b@),
{
    base64::engine::general_purpose::STANDARD.encode(b).into_bytes()
}

/// Relies on base64's standard engine: `decode` inverts `encode`, returning
/// the bytes whose base64 text the input is, and an error on any input that
/// is not such a text.
#[verifier::external_body]
pub fn b64_decode(s: &Vec<u8>) -> (r: Result<Vec<u8>, Error>)
    ensures
        r matches Ok(v) ==> b64_of(v@) == s@ && (forall|x: Seq<u8>|
            #[trigger] b64_of(x) == s@ ==> x == v@),
        r is Err ==> (forall|x: Seq<u8>| #[trigger] b64_of(x) != s@),
        r matches Err(e) ==> e.kind == ErrorKind::Base64,
{
    match base64::engine::general_purpose::STANDARD.decode(s) {
        Ok(v) => Ok(v),
        Err(_) => Err(Error { kind: ErrorKind::Base64, message: None }),
    }
}

/// Relies on ring's system random: `SecureRandom::fill` fills the buffer
/// with random bytes, failing only if the platform's generator does.
/// Nothing is assumed of the bytes themselves.
#[verifier::external_body]
fn random_secret() -> (r: Result<Vec<u8>, Error>)
    ensures
        r matches Ok(v) ==> v@.len() == 64,
        r matches Err(e) ==> e.kind == ErrorKind::RingUnspecified,
{
    let rng = ring::rand::SystemRandom::new();
    let mut buf = vec![0u8; 64];
    match rng.fill(&mut buf) {
        Ok(()) => Ok(buf),
        Err(_) => Err(Error { kind: ErrorKind::RingUnspecified, message: None }),
    }
}

/// Relies on ring's `hmac::sign` with `HMAC_SHA512`: the tag is the
/// HMAC-SHA512 of the data under the key, 64 bytes long, a function of key
/// and data alone. (`sign` fails only on inputs beyond SHA-512's length
/// bound, which no in-memory buffer reaches.)
#[verifier::external_body]
pub fn hmac_sha512(key: &Vec<u8>, data: &Vec<u8>) -> (r: Vec<u8>)
    ensures
        r@ == hmac_sha512_of(key@, data@),
        r@.len() == 64,
{
    let k = ring::hmac::Key::new(ring::hmac::HMAC_SHA512, key);
    ring::hmac::sign(&k, data).as_ref().to_vec()
}

/// Draws a fresh 64-byte secret for the named key and returns the key
/// together with the base64 text to persist in its file.
pub fn generate_new_tsig(name: &KeyFile) -> (r: Result<(Key, Vec<u8>), Error>)
    ensures
        r matches Ok((k, content)) ==> k.spec_name() == name@ && content@ == b64_of(
            k.spec_secret(),
        ) && k.spec_secret().len() == 64,
        r matches Err(e) ==> e.kind == ErrorKind::RingUnspecified,
{
    let secret = random_secret()?;
    let content = b64_encode(&secret);
    let k = Key::new(name.as_str().to_owned(), secret);
    Ok((k, content))
}

/// Rebuilds the named key from the base64 text of its file. Succeeds
/// exactly on valid base64, and the file text then encodes the secret.
pub fn load_tsig(name: &KeyFile, content: &Vec<u8>) -> (r: Result<Key, Error>)
    ensures
        r matches Ok(k) ==> k.spec_name() == name@ && b64_of(k.spec_secret()) == content@,
        (exists|x: Seq<u8>| #[trigger] b64_of(x) == content@) ==> r is Ok,
        r matches Err(e) ==> e.kind == ErrorKind::Base64,
{
    let secret = b64_decode(content)?;
    Ok(Key::new(name.as_str().to_owned(), secret))
}

/// Whether two byte strings are equal.
pub fn bytes_eq(a: &Vec<u8>, b: &Vec<u8>) -> (r: bool)
    ensures
        r == (a@ == b@),
{
    let mut i: usize = 0;
    if a.len() != b.len() {
        assert(a@ != b@) by {
            if a@ == b@ {
                assert(a@.len() == b@.len());
            }
        }
        return false;
    }
    while i < a.len()
        invariant
            0 <= i <= a@.len(),
            a@.len() == b@.len(),
            forall|j: int| 0 <= j < i ==> a@[j] == b@[j],
        decreases a@.len() - i,
    {
        if a[i] != b[i] {
            assert(a@ != b@) by {
                if a@ == b@ {
                    assert(a@[i as int] == b@[i as int]);
                }
            }
            return false;
        }
        i += 1;
    }
    assert(a@ =~= b@);
    true
}

/// The MAC a response signed under `key` carries: what signing computes.
pub open spec fn spec_sign_mac(key: Key, data: Seq<u8>) -> Seq<u8> {
    hmac_sha512_of(key.spec_secret(), data)
}

/// Whether a claimed MAC verifies for `data` under `key`.
pub open spec fn spec_mac_verifies(key: Key, data: Seq<u8>, mac: Seq<u8>) -> bool {
    mac == hmac_sha512_of(key.spec_secret(), data)
}

/// Signs a message: computes the HMAC-SHA512 of its bytes under the key.
pub fn sign_message(key: &Key, data: &Vec<u8>) -> (r: Vec<u8>)
    ensures
        r@ == spec_sign_mac(*key, data@),
        r@.len() == 64,
{
    hmac_sha512(key.secret(), data)
}

/// Checks a claimed MAC: recomputes the HMAC and compares byte for byte.
pub fn verify_mac(key: &Key, data: &Vec<u8>, mac: &Vec<u8>) -> (r: bool)
    ensures
        r == spec_mac_verifies(*key, data@, mac@),
{
    let expect = hmac_sha512(key.secret(), data);
    bytes_eq(mac, &expect)
}

/// Sign round trip: a MAC computed under a key verifies under that key.
pub proof fn lemma_sign_verify_round_trip(key: Key, data: Seq<u8>)
    ensures
        spec_mac_verifies(key, data, spec_sign_mac(key, data)),
{
}

/// A response whose claimed MAC is not the MAC of its bytes under the key
/// is rejected by verification.
pub proof fn lemma_altered_mac_rejected(key: Key, data: Seq<u8>, mac: Seq<u8>)
    requires
        mac != spec_sign_mac(key, data),
    ensures
        !spec_mac_verifies(key, data, mac),
{
}

/// The two octets of a 16-bit value in network byte order.
pub open spec fn spec_be16(x: u16) -> Seq<u8> {
    seq![(x / 256) as u8, (x % 256) as u8]
}

/// The four octets of a 32-bit value in network byte order.
pub open spec fn spec_be32(x: u32) -> Seq<u8> {
    seq![
        (x / 0x1000000 % 256) as u8,
        (x / 0x10000 % 256) as u8,
        (x / 0x100 % 256) as u8,
        (x % 256) as u8,
    ]
}

/// The six octets of a 48-bit time value in network byte order.
pub open spec fn spec_be48(x: u64) -> Seq<u8> {
    seq![
        (x / 0x10000000000 % 256) as u8,
        (x / 0x100000000 % 256) as u8,
        (x / 0x1000000 % 256) as u8,
        (x / 0x10000 % 256) as u8,
        (x / 0x100 % 256) as u8,
        (x % 256) as u8,
    ]
}

/// The 16-bit value the two octets at `i` carry in network byte order.
pub open spec fn spec_u16_at(raw: Seq<u8>, i: int) -> int {
    raw[i] * 256 + raw[i + 1]
}

/// Appends the two octets of a 16-bit value.
fn push_be16(out: &mut Vec<u8>, x: u16)
    ensures
        final(out)@ == old(out)@ + spec_be16(x),
{
    let ghost pre = out@;
    out.push((x / 256) as u8);
    out.push((x % 256) as u8);
    proof {
        assert(out@ =~= pre + spec_be16(x));
    }
}

/// Appends the four octets of a 32-bit value.
fn push_be32(out: &mut Vec<u8>, x: u32)
    ensures
        final(out)@ == old(out)@ + spec_be32(x),
{
    let ghost pre = out@;
    out.push((x / 0x1000000 % 256) as u8);
    out.push((x / 0x10000 % 256) as u8);
    out.push((x / 0x100 % 256) as u8);
    out.push((x % 256) as u8);
    proof {
        assert(out@ =~= pre + spec_be32(x));
    }
}

/// Appends the six octets of a 48-bit time value.
fn push_be48(out: &mut Vec<u8>, x: u64)
    ensures
        final(out)@ == old(out)@ + spec_be48(x),
{
    let ghost pre = out@;
    out.push((x / 0x10000000000 % 256) as u8);
    out.push((x / 0x100000000 % 256) as u8);
    out.push((x / 0x1000000 % 256) as u8);
    out.push((x / 0x10000 % 256) as u8);
    out.push((x / 0x100 % 256) as u8);
    out.push((x % 256) as u8);
    proof {
        assert(out@ =~= pre + spec_be48(x));
    }
}

/// Appends a range of another byte string.
fn push_range(out: &mut Vec<u8>, src: &Vec<u8>, from: usize, to: usize)
    requires
        from <= to <= src@.len(),
    ensures
        final(out)@ == old(out)@ + src@.subrange(from as int, to as int),
{
    let mut i: usize = from;
    while i < to
        invariant
            from <= i <= to <= src@.len(),
            out@ == old(out)@ + src@.subrange(from as int, i as int),
        decreases to - i,
    {
        let ghost pre = out@;
        out.push(src[i]);
        i += 1;
        proof {
            assert(out@ =~= old(out)@ + src@.subrange(from as int, i as int));
        }
    }
}

/// The TSIG variables of RFC 8945 as they enter the MAC, in order: the
/// key's canonical wire-format name, class ANY, TTL zero, the algorithm's
/// canonical wire-format name, the signing time, the fudge, the error, and
/// the length-prefixed other data.
pub open spec fn spec_tsig_variables(
    key_name: Seq<u8>,
    alg_name: Seq<u8>,
    time_signed: u64,
    fudge: u16,
    error: u16,
    other: Seq<u8>,
) -> Seq<u8> {
    key_name + spec_be16(255) + spec_be32(0) + alg_name + spec_be48(time_signed) + spec_be16(fudge)
        + spec_be16(error) + spec_be16(other.len() as u16) + other
}

/// Appends the TSIG variables to a digest input.
fn push_tsig_variables(
    out: &mut Vec<u8>,
    key_name: &Vec<u8>,
    alg_name: &Vec<u8>,
    time_signed: u64,
    fudge: u16,
    error: u16,
    other: &Vec<u8>,
)
    requires
        other@.len() <= 65535,
    ensures
        final(out)@ == old(out)@ + spec_tsig_variables(
            key_name@,
            alg_name@,
            time_signed,
            fudge,
            error,
            other@,
        ),
{
    push_range(out, key_name, 0, key_name.len());
    push_be16(out, 255);
    push_be32(out, 0);
    push_range(out, alg_name, 0, alg_name.len());
    push_be48(out, time_signed);
    push_be16(out, fudge);
    push_be16(out, error);
    push_be16(out, other.len() as u16);
    push_range(out, other, 0, other.len());
    proof {
        assert(key_name@.subrange(0, key_name@.len() as int) =~= key_name@);
        assert(alg_name@.subrange(0, alg_name@.len() as int) =~= alg_name@);
        assert(other@.subrange(0, other@.len() as int) =~= other@);
        assert(out@ =~= old(out)@ + spec_tsig_variables(
            key_name@,
            alg_name@,
            time_signed,
            fudge,
            error,
            other@,
        ));
    }
}

/// The octets a request's MAC covers (RFC 8945): the message up to its
/// TSIG record, with the ID restored to the original ID and the TSIG
/// record taken out of the additional count, followed by the TSIG
/// variables from the record.
pub open spec fn spec_request_signed_data(
    raw: Seq<u8>,
    tsig_start: int,
    original_id: u16,
    key_name: Seq<u8>,
    alg_name: Seq<u8>,
    time_signed: u64,
    fudge: u16,
    error: u16,
    other: Seq<u8>,
) -> Seq<u8> {
    spec_be16(original_id) + raw.subrange(2, 10) + spec_be16((spec_u16_at(raw, 10) - 1) as u16)
        + raw.subrange(12, tsig_start) + spec_tsig_variables(
        key_name,
        alg_name,
        time_signed,
        fudge,
        error,
        other,
    )
}

/// Assembles the octets a request's MAC covers. `tsig_start` is the byte
/// offset of the TSIG record, which RFC 8945 requires to be the last
/// record of the message. Fails exactly on an offset outside the message,
/// an additional count of zero, or oversized other data.
pub fn request_signed_data(
    raw: &Vec<u8>,
    tsig_start: usize,
    original_id: u16,
    key_name: &Vec<u8>,
    alg_name: &Vec<u8>,
    time_signed: u64,
    fudge: u16,
    error: u16,
    other: &Vec<u8>,
) -> (r: Option<Vec<u8>>)
    ensures
        r is Some <==> (12 <= tsig_start <= raw@.len() && spec_u16_at(raw@, 10) > 0 && other@.len()
            <= 65535),
        r matches Some(v) ==> v@ == spec_request_signed_data(
            raw@,
            tsig_start as int,
            original_id,
            key_name@,
            alg_name@,
            time_signed,
            fudge,
            error,
            other@,
        ),
{
    if tsig_start < 12 || tsig_start > raw.len() || other.len() > 65535 {
        return None;
    }
    let arcount: u32 = (raw[10] as u32) * 256 + (raw[11] as u32);
    if arcount == 0 {
        return None;
    }
    let mut out: Vec<u8> = Vec::new();
    push_be16(&mut out, original_id);
    push_range(&mut out, raw, 2, 10);
    push_be16(&mut out, (arcount - 1) as u16);
    push_range(&mut out, raw, 12, tsig_start);
    push_tsig_variables(&mut out, key_name, alg_name, time_signed, fudge, error, other);
    proof {
        assert(arcount == spec_u16_at(raw@, 10));
        assert(out@ =~= spec_request_signed_data(
            raw@,
            tsig_start as int,
            original_id,
            key_name@,
            alg_name@,
            time_signed,
            fudge,
            error,
            other@,
        ));
    }
    Some(out)
}

/// The octets a response's MAC covers (RFC 8945): the request MAC with its
/// length, the response message without its TSIG record, and the TSIG
/// variables of the response.
pub open spec fn spec_response_signed_data(
    request_mac: Seq<u8>,
    msg: Seq<u8>,
    key_name: Seq<u8>,
    alg_name: Seq<u8>,
    time_signed: u64,
    fudge: u16,
    error: u16,
    other: Seq<u8>,
) -> Seq<u8> {
    spec_be16(request_mac.len() as u16) + request_mac + msg + spec_tsig_variables(
        key_name,
        alg_name,
        time_signed,
        fudge,
        error,
        other,
    )
}

/// Assembles the octets a response's MAC covers.
pub fn response_signed_data(
    request_mac: &Vec<u8>,
    msg: &Vec<u8>,
    key_name: &Vec<u8>,
    alg_name: &Vec<u8>,
    time_signed: u64,
    fudge: u16,
    error: u16,
    other: &Vec<u8>,
) -> (r: Option<Vec<u8>>)
    ensures
        r is Some <==> (request_mac@.len() <= 65535 && other@.len() <= 65535),
        r matches Some(v) ==> v@ == spec_response_signed_data(
            request_mac@,
            msg@,
            key_name@,
            alg_name@,
            time_signed,
            fudge,
            error,
            other@,
        ),
{
    if request_mac.len() > 65535 || other.len() > 65535 {
        return None;
    }
    let mut out: Vec<u8> = Vec::new();
    push_be16(&mut out, request_mac.len() as u16);
    push_range(&mut out, request_mac, 0, request_mac.len());
    push_range(&mut out, msg, 0, msg.len());
    push_tsig_variables(&mut out, key_name, alg_name, time_signed, fudge, error, other);
    proof {
        assert(request_mac@.subrange(0, request_mac@.len() as int) =~= request_mac@);
        assert(msg@.subrange(0, msg@.len() as int) =~= msg@);
        assert(out@ =~= spec_response_signed_data(
            request_mac@,
            msg@,
            key_name@,
            alg_name@,
            time_signed,
            fudge,
            error,
            other@,
        ));
    }
    Some(out)
}

/// The octets a subsequent envelope's MAC covers (RFC 8945 sequences): the
/// prior envelope's MAC with its length, the message without its TSIG
/// record, and only the timers.
pub open spec fn spec_sequence_signed_data(
    prior_mac: Seq<u8>,
    msg: Seq<u8>,
    time_signed: u64,
    fudge: u16,
) -> Seq<u8> {
    spec_be16(prior_mac.len() as u16) + prior_mac + msg + spec_be48(time_signed) + spec_be16(fudge)
}

/// Assembles the octets a subsequent envelope's MAC covers.
pub fn sequence_signed_data(prior_mac: &Vec<u8>, msg: &Vec<u8>, time_signed: u64, fudge: u16) -> (r:
    Option<Vec<u8>>)
    ensures
        r is Some <==> prior_mac@.len() <= 65535,
        r matches Some(v) ==> v@ == spec_sequence_signed_data(
            prior_mac@,
            msg@,
            time_signed,
            fudge,
        ),
{
    if prior_mac.len() > 65535 {
        return None;
    }
    let mut out: Vec<u8> = Vec::new();
    push_be16(&mut out, prior_mac.len() as u16);
    push_range(&mut out, prior_mac, 0, prior_mac.len());
    push_range(&mut out, msg, 0, msg.len());
    push_be48(&mut out, time_signed);
    push_be16(&mut out, fudge);
    proof {
        assert(prior_mac@.subrange(0, prior_mac@.len() as int) =~= prior_mac@);
        assert(msg@.subrange(0, msg@.len() as int) =~= msg@);
        assert(out@ =~= spec_sequence_signed_data(prior_mac@, msg@, time_signed, fudge));
    }
    Some(out)
}

/// Signs a whole response stream under one key, the sequence flavor of
/// RFC 8945 with every envelope signed: the first envelope's MAC covers
/// the length-prefixed request MAC, its message and the full TSIG
/// variables; every further envelope's MAC covers the length-prefixed MAC
/// of the envelope before it, its message and the timers. A single-message
/// response is the transaction flavor: the chain of length one.
pub fn sign_stream(
    key: &Key,
    request_mac: &Vec<u8>,
    bodies: &Vec<Vec<u8>>,
    key_name: &Vec<u8>,
    alg_name: &Vec<u8>,
    time_signed: u64,
    fudge: u16,
) -> (r: Option<Vec<Vec<u8>>>)
    ensures
        r is Some <==> request_mac@.len() <= 65535,
        r matches Some(macs) ==> {
            &&& macs@.len() == bodies@.len()
            &&& (forall|i: int| 0 <= i < macs@.len() ==> (#[trigger] macs@[i])@.len() == 64)
            &&& (macs@.len() > 0 ==> macs@[0]@ == spec_sign_mac(
                *key,
                spec_response_signed_data(
                    request_mac@,
                    bodies@[0]@,
                    key_name@,
                    alg_name@,
                    time_signed,
                    fudge,
                    0,
                    Seq::empty(),
                ),
            ))
            &&& (forall|i: int|
                1 <= i < macs@.len() ==> (#[trigger] macs@[i])@ == spec_sign_mac(
                    *key,
                    spec_sequence_signed_data(macs@[i - 1]@, bodies@[i]@, time_signed, fudge),
                ))
        },
{
    if request_mac.len() > 65535 {
        return None;
    }
    let mut macs: Vec<Vec<u8>> = Vec::new();
    let empty_other: Vec<u8> = Vec::new();
    let mut i: usize = 0;
    while i < bodies.len()
        invariant
            request_mac@.len() <= 65535,
            empty_other@ == Seq::<u8>::empty(),
            0 <= i <= bodies@.len(),
            macs@.len() == i,
            forall|j: int| 0 <= j < i ==> (#[trigger] macs@[j])@.len() == 64,
            i > 0 ==> macs@[0]@ == spec_sign_mac(
                *key,
                spec_response_signed_data(
                    request_mac@,
                    bodies@[0]@,
                    key_name@,
                    alg_name@,
                    time_signed,
                    fudge,
                    0,
                    Seq::empty(),
                ),
            ),
            forall|j: int|
                1 <= j < i ==> (#[trigger] macs@[j])@ == spec_sign_mac(
                    *key,
                    spec_sequence_signed_data(macs@[j - 1]@, bodies@[j]@, time_signed, fudge),
                ),
        decreases bodies@.len() - i,
    {
        let data = if i == 0 {
            match response_signed_data(
                request_mac,
                &bodies[0],
                key_name,
                alg_name,
                time_signed,
                fudge,
                0,
                &empty_other,
            ) {
                Some(d) => d,
                None => {
                    return None;
                },
            }
        } else {
            match sequence_signed_data(&macs[i - 1], &bodies[i], time_signed, fudge) {
                Some(d) => d,
                None => {
                    return None;
                },
            }
        };
        let ghost dv = data@;
        let mac = sign_message(key, &data);
        let ghost mv = mac@;
        let ghost pre = macs@;
        macs.push(mac);
        proof {
            assert(macs@[i as int]@ == mv);
            assert forall|j: int| 0 <= j < i implies macs@[j] == pre[j] by {}
        }
        i += 1;
    }
    Some(macs)
}

/// The six octets of a 48-bit time value: a BADTIME response reports the
/// server's time in this form.
pub fn be48_octets(x: u64) -> (r: Vec<u8>)
    ensures
        r@ == spec_be48(x),
{
    let mut out: Vec<u8> = Vec::new();
    push_be48(&mut out, x);
    proof {
        assert(out@ =~= spec_be48(x));
    }
    out
}

/// The wire form of one TSIG resource record (RFC 8945): owner, type TSIG,
/// class ANY, TTL zero, and the rdata fields in order.
pub open spec fn spec_tsig_rr(
    key_name: Seq<u8>,
    alg_name: Seq<u8>,
    time_signed: u64,
    fudge: u16,
    mac: Seq<u8>,
    original_id: u16,
    error: u16,
    other: Seq<u8>,
) -> Seq<u8> {
    key_name + spec_be16(250) + spec_be16(255) + spec_be32(0) + spec_be16(
        (alg_name.len() + mac.len() + other.len() + 16) as u16,
    ) + alg_name + spec_be48(time_signed) + spec_be16(fudge) + spec_be16(mac.len() as u16) + mac
        + spec_be16(original_id) + spec_be16(error) + spec_be16(other.len() as u16) + other
}

/// A finished message with one TSIG record appended: the message's
/// additional count raised by one and the record's octets at the end.
pub open spec fn spec_with_tsig(body: Seq<u8>, rr: Seq<u8>) -> Seq<u8> {
    body.subrange(0, 10) + spec_be16((spec_u16_at(body, 10) + 1) as u16) + body.subrange(
        12,
        body.len() as int,
    ) + rr
}

/// Appends one TSIG record to finished response octets, leaving every byte
/// the response's MAC covered untouched. Fails exactly on a message shorter
/// than a header, a full additional count, or oversized record fields.
#[verifier::rlimit(90)]
pub fn append_tsig_record(
    body: &Vec<u8>,
    key_name: &Vec<u8>,
    alg_name: &Vec<u8>,
    time_signed: u64,
    fudge: u16,
    mac: &Vec<u8>,
    original_id: u16,
    error: u16,
    other: &Vec<u8>,
) -> (r: Option<Vec<u8>>)
    ensures
        r is Some <==> (body@.len() >= 12 && spec_u16_at(body@, 10) < 65535 && alg_name@.len()
            + mac@.len() + other@.len() + 16 <= 65535 && mac@.len() <= 65535 && other@.len()
            <= 65535),
        r matches Some(v) ==> v@ == spec_with_tsig(
            body@,
            spec_tsig_rr(
                key_name@,
                alg_name@,
                time_signed,
                fudge,
                mac@,
                original_id,
                error,
                other@,
            ),
        ),
{
    if body.len() < 12 || mac.len() > 65535 || other.len() > 65535 {
        return None;
    }
    if mac.len() + other.len() > 65535 - 16 || alg_name.len() > 65535 - 16 - mac.len()
        - other.len() {
        return None;
    }
    let arcount: u32 = (body[10] as u32) * 256 + (body[11] as u32);
    if arcount >= 65535 {
        return None;
    }
    let mut out: Vec<u8> = Vec::new();
    push_range(&mut out, body, 0, 10);
    push_be16(&mut out, (arcount + 1) as u16);
    push_range(&mut out, body, 12, body.len());
    push_range(&mut out, key_name, 0, key_name.len());
    push_be16(&mut out, 250);
    push_be16(&mut out, 255);
    push_be32(&mut out, 0);
    push_be16(&mut out, (alg_name.len() + mac.len() + other.len() + 16) as u16);
    push_range(&mut out, alg_name, 0, alg_name.len());
    push_be48(&mut out, time_signed);
    push_be16(&mut out, fudge);
    push_be16(&mut out, mac.len() as u16);
    push_range(&mut out, mac, 0, mac.len());
    push_be16(&mut out, original_id);
    push_be16(&mut out, error);
    push_be16(&mut out, other.len() as u16);
    push_range(&mut out, other, 0, other.len());
    proof {
        assert(arcount == spec_u16_at(body@, 10));
        assert(key_name@.subrange(0, key_name@.len() as int) =~= key_name@);
        assert(alg_name@.subrange(0, alg_name@.len() as int) =~= alg_name@);
        assert(mac@.subrange(0, mac@.len() as int) =~= mac@);
        assert(other@.subrange(0, other@.len() as int) =~= other@);
        assert(out@ =~= spec_with_tsig(
            body@,
            spec_tsig_rr(
                key_name@,
                alg_name@,
                time_signed,
                fudge,
                mac@,
                original_id,
                error,
                other@,
            ),
        ));
    }
    Some(out)
}

/// The TSIG claims a request carries: the fields of its TSIG record plus
/// the exact byte string its MAC covers.
pub struct TsigRecord {
    /// The key name from the TSIG record.
    pub key_name: String,
    /// Whether the record's algorithm field names hmac-sha512.
    pub algorithm_sha512: bool,
    /// The signing time claimed by the record, in Unix seconds.
    pub time_signed: u64,
    /// The MAC the record carries.
    pub mac: Vec<u8>,
    /// The request's original message ID as recorded before signing.
    pub original_id: u16,
    /// The octets the MAC is computed over, per RFC 8945.
    pub signed_data: Vec<u8>,
}

/// The authentication outcome of one request.
pub enum TsigVerdict {
    /// The request carried no TSIG record and passes through unsigned.
    Unsigned,
    /// The request verified under the given stored key.
    Verified { key: Key },
    /// The request is refused with the given response code and TSIG error.
    /// A BADTIME refusal carries the key, since its response must be
    /// signed and report the server's time.
    Rejected { rcode: u8, tsig_error: u16, key: Option<Key> },
}

/// The NOTAUTH response code.
pub const RCODE_NOTAUTH: u8 = 9;

/// The TSIG BADSIG error.
pub const TSIG_BADSIG: u16 = 16;

/// The TSIG BADKEY error.
pub const TSIG_BADKEY: u16 = 17;

/// The TSIG BADTIME error.
pub const TSIG_BADTIME: u16 = 18;

/// How far, in seconds, a signing time may lie from the server's clock.
pub const TSIG_FUDGE: u64 = 300;

/// Whether the claimed signing time lies within the window around `now`.
pub open spec fn time_in_window(time_signed: u64, now: u64) -> bool {
    (if now >= time_signed {
        now - time_signed
    } else {
        time_signed - now
    }) <= TSIG_FUDGE
}

/// Whether all checks of a signed request pass: the algorithm is ours, the
/// key is stored, its MAC verifies the signed octets, the original ID is
/// the request's, and the signing time lies in the window.
pub open spec fn spec_request_verified(
    store: KeyStore,
    t: TsigRecord,
    req_id: u16,
    now: u64,
) -> bool {
    &&& t.algorithm_sha512
    &&& store.has_key(t.key_name@)
    &&& spec_mac_verifies(store.spec_get(t.key_name@), t.signed_data@, t.mac@)
    &&& t.original_id == req_id
    &&& time_in_window(t.time_signed, now)
}

/// Verifies the TSIG claims of one request against the key store, step for
/// step: no record passes through unsigned; an unknown key name or a
/// foreign algorithm is BADKEY; a MAC or original-ID mismatch is BADSIG; a
/// signing time outside the window is BADTIME; otherwise the key verified.
pub fn verify_request(store: &KeyStore, tsig: &Option<TsigRecord>, req_id: u16, now: u64) -> (r:
    TsigVerdict)
    requires
        store.wf(),
    ensures
        r is Unsigned <==> tsig is None,
        r matches TsigVerdict::Verified { key } ==> (tsig matches Some(t) && spec_request_verified(
            *store,
            *t,
            req_id,
            now,
        ) && key.spec_name() == t.key_name@ && key.spec_secret() == store.spec_get(
            t.key_name@,
        ).spec_secret()),
        (tsig matches Some(t) && spec_request_verified(*store, *t, req_id, now)) ==> r is Verified,
        tsig matches Some(t) && (!t.algorithm_sha512 || !store.has_key(t.key_name@)) ==> (
        r matches TsigVerdict::Rejected { rcode, tsig_error, key } && rcode == RCODE_NOTAUTH
            && tsig_error == TSIG_BADKEY && key is None),
        tsig matches Some(t) && t.algorithm_sha512 && store.has_key(t.key_name@) && (
        !spec_mac_verifies(store.spec_get(t.key_name@), t.signed_data@, t.mac@) || t.original_id
            != req_id) ==> (r matches TsigVerdict::Rejected { rcode, tsig_error, key } && rcode
            == RCODE_NOTAUTH && tsig_error == TSIG_BADSIG && key is None),
        tsig matches Some(t) ==> ((t.algorithm_sha512 && store.has_key(t.key_name@)
            && spec_mac_verifies(store.spec_get(t.key_name@), t.signed_data@, t.mac@)
            && t.original_id == req_id && !time_in_window(t.time_signed, now)) ==> (
        r matches TsigVerdict::Rejected { rcode, tsig_error, key } && rcode == RCODE_NOTAUTH
            && tsig_error == TSIG_BADTIME && (key matches Some(k) && k.spec_name() == t.key_name@
            && k.spec_secret() == store.spec_get(t.key_name@).spec_secret()))),
{
    match tsig {
        None => TsigVerdict::Unsigned,
        Some(t) => {
            if !t.algorithm_sha512 {
                return TsigVerdict::Rejected {
                    rcode: RCODE_NOTAUTH,
                    tsig_error: TSIG_BADKEY,
                    key: None,
                };
            }
            match store.get_key(t.key_name.as_str()) {
                None => TsigVerdict::Rejected {
                    rcode: RCODE_NOTAUTH,
                    tsig_error: TSIG_BADKEY,
                    key: None,
                },
                Some(key) => {
                    if !verify_mac(key, &t.signed_data, &t.mac) || t.original_id != req_id {
                        TsigVerdict::Rejected {
                            rcode: RCODE_NOTAUTH,
                            tsig_error: TSIG_BADSIG,
                            key: None,
                        }
                    } else {
                        let diff = if now >= t.time_signed {
                            now - t.time_signed
                        } else {
                            t.time_signed - now
                        };
                        if diff > TSIG_FUDGE {
                            TsigVerdict::Rejected {
                                rcode: RCODE_NOTAUTH,
                                tsig_error: TSIG_BADTIME,
                                key: Some(key.clone()),
                            }
                        } else {
                            TsigVerdict::Verified { key: key.clone() }
                        }
                    }
                },
            }
        },
    }
}

/// Whether the key named `key_name` authorizes updates of the owner name
/// `qname`: the configuration must list, under that key, the domain that
/// remains when the challenge label and the trailing dot are stripped.
pub fn validate_key_scope(keys: &Keys, key_name: &str, qname: &str) -> (r: bool)
    ensures
        r == keys.authorizes(key_name@, names::scope_of(qname@)),
{
    let scope = names::scope_str(qname);
    let entries = keys.entries();
    let mut i: usize = 0;
    while i < entries.len()
        invariant
            scope@ == names::scope_of(qname@),
            entries@ == keys.entries_seq(),
            0 <= i <= entries@.len(),
            forall|a: int, b: int|
                0 <= a < i && 0 <= b < entries@[a].domains@.len() ==> !(entries@[a].file@
                    == key_name@ && entries@[a].domains@[b].name@ == scope@),
        decreases entries@.len() - i,
    {
        if names::str_eq(entries[i].file.as_str(), key_name) {
            let domains = &entries[i].domains;
            let mut j: usize = 0;
            while j < domains.len()
                invariant
                    scope@ == names::scope_of(qname@),
                    entries@ == keys.entries_seq(),
                    0 <= i < entries@.len(),
                    domains@ == entries@[i as int].domains@,
                    entries@[i as int].file@ == key_name@,
                    0 <= j <= domains@.len(),
                    forall|b: int| 0 <= b < j ==> entries@[i as int].domains@[b].name@ != scope@,
                decreases domains@.len() - j,
            {
                if names::str_eq(domains[j].name.as_str(), scope.as_str()) {
                    return true;
                }
                j += 1;
            }
        }
        i += 1;
    }
    false
}

} // verus!
