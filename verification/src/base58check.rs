//! Base58Check: a version byte and a 4-byte double-SHA-256 checksum,
//! encoded in Base58.

use vstd::prelude::*;
use crate::base58::{
    base58_decode, base58_decode_seq, base58_encode, base58_seq, lemma_base58_round_trip,
};
use crate::errors::KeyError;
use crate::hashing::{sha256, sha256_of};

verus! {

/// The 4-byte checksum of a payload: the first four bytes of its double
/// SHA-256 digest.
pub open spec fn checksum_of(payload: Seq<u8>) -> Seq<u8> {
    sha256_of(sha256_of(payload)).take(4)
}

/// A version byte, a body, and the checksum over both.
pub open spec fn b58check_payload(version: u8, body: Seq<u8>) -> Seq<u8> {
    seq![version] + body + checksum_of(seq![version] + body)
}

/// The payload carries at least a version byte and a checksum, and its
/// trailing four bytes are the checksum of the rest.
pub open spec fn checksum_ok(payload: Seq<u8>) -> bool {
    &&& payload.len() >= 5
    &&& payload.skip(payload.len() - 4) == checksum_of(payload.take(payload.len() - 4))
}

/// What a Base58Check string decodes to: nothing unless it is valid
/// Base58 and the recomputed checksum matches; else the version byte and
/// the body between version and checksum.
pub open spec fn base58check_decode_seq(t: Seq<char>) -> Option<(u8, Seq<u8>)> {
    match base58_decode_seq(t) {
        Option::None => Option::None,
        Option::Some(payload) => if checksum_ok(payload) {
            Option::Some((payload[0], payload.subrange(1, payload.len() - 4)))
        } else {
            Option::None
        },
    }
}

/// The double-SHA-256 checksum, as executable bytes.
fn checksum(payload: &Vec<u8>) -> (r: Vec<u8>)
    ensures
        r@ == checksum_of(payload@),
        r@.len() == 4,
{
    let h1 = sha256(payload.as_slice());
    let h2 = sha256(h1.as_slice());
    let mut out: Vec<u8> = Vec::new();
    out.push(h2[0]);
    out.push(h2[1]);
    out.push(h2[2]);
    out.push(h2[3]);
    proof {
        assert(out@ =~= sha256_of(sha256_of(payload@)).take(4));
    }
    out
}

/// Builds `version ∥ body ∥ checksum(version ∥ body)` and encodes it in
/// Base58; decoding the result gives that payload back.
pub fn base58check_encode(version: u8, body: &[u8]) -> (r: String)
    ensures
        r@ == base58_seq(b58check_payload(version, body@)),
        base58_decode_seq(r@) == Some(b58check_payload(version, body@)),
        b58check_payload(version, body@).len() == body@.len() + 5,
        b58check_payload(version, body@)[0] == version,
        b58check_payload(version, body@).subrange(1, body@.len() as int + 1) == body@,
        checksum_ok(b58check_payload(version, body@)),
        base58check_decode_seq(r@) == Some((version, body@)),
{
    let mut payload: Vec<u8> = Vec::new();
    payload.push(version);
    payload.extend_from_slice(body);
    proof {
        assert(payload@ =~= seq![version] + body@);
    }
    let ck = checksum(&payload);
    let ghost bare = payload@;
    payload.extend_from_slice(ck.as_slice());
    proof {
        assert(payload@ =~= b58check_payload(version, body@));
        assert(payload@.skip(payload@.len() - 4) =~= ck@);
        assert(payload@.take(payload@.len() - 4) =~= bare);
        assert(b58check_payload(version, body@).subrange(1, body@.len() as int + 1) =~= body@);
        lemma_base58_round_trip(payload@);
        assert(payload@.subrange(1, payload@.len() - 4) =~= body@);
    }
    base58_encode(payload.as_slice())
}

/// Decodes a Base58Check string and verifies its checksum: the version
/// byte and the body are returned exactly when the text is valid Base58
/// and its trailing four bytes match the recomputed double-SHA-256
/// checksum; anything else is rejected, never corrected.
pub fn base58check_decode(text: &str) -> (r: Result<(u8, Vec<u8>), KeyError>)
    ensures
        match r {
            Ok(p) => base58check_decode_seq(text@) == Some((p.0, p.1@)),
            Err(e) => {
                &&& base58check_decode_seq(text@) is None
                &&& e == KeyError::InvalidEncodedInput
            },
        },
{
    let bytes = match base58_decode(text) {
        Ok(b) => b,
        Err(_) => {
            return Err(KeyError::InvalidEncodedInput);
        },
    };
    let n = bytes.len();
    if n < 5 {
        return Err(KeyError::InvalidEncodedInput);
    }
    let mut bare: Vec<u8> = Vec::new();
    let mut i: usize = 0;
    while i < n - 4
        invariant
            i <= n - 4,
            n == bytes@.len(),
            base58_decode_seq(text@) == Some(bytes@),
            n >= 5,
            bare@ == bytes@.take(i as int),
        decreases n - i,
    {
        bare.push(bytes[i]);
        i += 1;
        proof {
            assert(bare@ =~= bytes@.take(i as int));
        }
    }
    let expect = checksum(&bare);
    let mut j: usize = 0;
    while j < 4
        invariant
            j <= 4,
            n == bytes@.len(),
            base58_decode_seq(text@) == Some(bytes@),
            n >= 5,
            bare@ == bytes@.take(n - 4),
            expect@ == checksum_of(bytes@.take(n - 4)),
            expect@.len() == 4,
            forall|q: int| 0 <= q < j ==> bytes@[n - 4 + q] == expect@[q],
        decreases 4 - j,
    {
        if bytes[n - 4 + j] != expect[j] {
            proof {
                assert(bytes@.skip(n - 4)[j as int] == bytes@[n - 4 + j]);
                assert(checksum_of(bytes@.take(n - 4))[j as int] == expect@[j as int]);
                assert(bytes@.skip(n - 4)[j as int] != checksum_of(bytes@.take(n - 4))[j as int]);
                assert(!checksum_ok(bytes@));
                assert(base58_decode_seq(text@) == Some(bytes@));
                assert(base58check_decode_seq(text@) is None);
            }
            return Err(KeyError::InvalidEncodedInput);
        }
        j += 1;
    }
    proof {
        assert(bytes@.skip(n - 4) =~= checksum_of(bytes@.take(n - 4)));
        assert(checksum_ok(bytes@));
    }
    let version = bytes[0];
    let mut body: Vec<u8> = Vec::new();
    let mut p: usize = 1;
    while p < n - 4
        invariant
            1 <= p <= n - 4,
            n == bytes@.len(),
            base58_decode_seq(text@) == Some(bytes@),
            checksum_ok(bytes@),
            version == bytes@[0],
            n >= 5,
            body@ == bytes@.subrange(1, p as int),
        decreases n - p,
    {
        body.push(bytes[p]);
        p += 1;
        proof {
            assert(body@ =~= bytes@.subrange(1, p as int));
        }
    }
    proof {
        assert(base58check_decode_seq(text@) == Some((version, body@)));
    }
    Ok((version, body))
}

} // verus!
