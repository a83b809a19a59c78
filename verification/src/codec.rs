//! The reversible payload transform applied before a message payload is
//! persisted and undone when a stored message is materialized.  Deployments
//! substitute a real cipher behind the same contract; what the engine relies
//! on is exactly what is proved here: the transform round-trips.

use vstd::prelude::*;

verus! {

/// The leading marker byte of every sealed payload.
pub const PAYLOAD_MARK: u8 = 1;

/// The per-byte shift of the transform.
pub const PAYLOAD_SHIFT: u8 = 92;

/// The sealed form of a plain byte.
pub open spec fn seal_byte(b: u8) -> u8 {
    if b + PAYLOAD_SHIFT < 256 {
        (b + PAYLOAD_SHIFT) as u8
    } else {
        (b + PAYLOAD_SHIFT - 256) as u8
    }
}

/// The plain form of a sealed byte.
pub open spec fn open_byte(x: u8) -> u8 {
    if x >= PAYLOAD_SHIFT {
        (x - PAYLOAD_SHIFT) as u8
    } else {
        (x + 256 - PAYLOAD_SHIFT) as u8
    }
}

/// The sealed form of a payload: the marker byte, then each byte shifted.
pub open spec fn sealed_of(p: Seq<u8>) -> Seq<u8> {
    seq![PAYLOAD_MARK] + p.map_values(|b: u8| seal_byte(b))
}

/// What decoding a stored payload yields: the plain bytes, or nothing when
/// the marker is absent.
pub open spec fn opened_of(c: Seq<u8>) -> Option<Seq<u8>> {
    if c.len() >= 1 && c[0] == PAYLOAD_MARK {
        Some(c.drop_first().map_values(|b: u8| open_byte(b)))
    } else {
        None
    }
}

/// A payload that cannot be decoded: the marker byte is absent.
#[derive(Clone, Copy, PartialEq, Eq, Debug)]
pub enum CodecError {
    BadHeader,
}

/// Seal a payload for storage.
pub fn encode_payload(p: &Vec<u8>) -> (r: Vec<u8>)
    ensures
        r@ == sealed_of(p@),
{
    let mut out: Vec<u8> = Vec::new();
    out.push(PAYLOAD_MARK);
    let mut k: usize = 0;
    while k < p.len()
        invariant
            0 <= k <= p.len(),
            out@ == sealed_of(p@.take(k as int)),
        decreases p.len() - k,
    {
        let b = p[k];
        if b < 164 {
            out.push(b + PAYLOAD_SHIFT);
        } else {
            out.push(b - 164);
        }
        proof {
            assert(p@.take(k + 1 as int).map_values(|x: u8| seal_byte(x)) =~= p@.take(
                k as int,
            ).map_values(|x: u8| seal_byte(x)).push(seal_byte(p@[k as int])));
            assert(out@ =~= sealed_of(p@.take(k + 1 as int)));
        }
        k = k + 1;
    }
    proof {
        assert(p@.take(p@.len() as int) =~= p@);
    }
    out
}

/// Open a sealed payload: the inverse of `encode_payload`, failing exactly
/// when the marker byte is absent.
pub fn decode_payload(c: &Vec<u8>) -> (r: Result<Vec<u8>, CodecError>)
    ensures
        match r {
            Ok(p) => opened_of(c@) == Some(p@),
            Err(_) => opened_of(c@) is None,
        },
{
    if c.len() == 0 || c[0] != PAYLOAD_MARK {
        return Err(CodecError::BadHeader);
    }
    let mut out: Vec<u8> = Vec::new();
    let mut k: usize = 1;
    while k < c.len()
        invariant
            1 <= k <= c.len(),
            c@.len() >= 1 && c@[0] == PAYLOAD_MARK,
            out@ == c@.subrange(1, k as int).map_values(|b: u8| open_byte(b)),
        decreases c.len() - k,
    {
        let x = c[k];
        if x >= PAYLOAD_SHIFT {
            out.push(x - PAYLOAD_SHIFT);
        } else {
            out.push(x + 164);
        }
        proof {
            assert(c@.subrange(1, k + 1 as int).map_values(|b: u8| open_byte(b)) =~= c@.subrange(
                1,
                k as int,
            ).map_values(|b: u8| open_byte(b)).push(open_byte(c@[k as int])));
        }
        k = k + 1;
    }
    proof {
        assert(c@.subrange(1, c@.len() as int) =~= c@.drop_first());
    }
    Ok(out)
}

/// Opening a freshly sealed payload yields the payload back.
pub proof fn lemma_open_seal(p: Seq<u8>)
    ensures
        opened_of(sealed_of(p)) == Some(p),
{
    let s = sealed_of(p);
    assert(s[0] == PAYLOAD_MARK);
    assert(s.drop_first() =~= p.map_values(|b: u8| seal_byte(b)));
    assert(s.drop_first().map_values(|b: u8| open_byte(b)) =~= p);
}

/// Re-sealing a successfully opened payload yields the stored bytes back:
/// the transform round-trips in both directions.
pub proof fn lemma_seal_open(c: Seq<u8>, p: Seq<u8>)
    requires
        opened_of(c) == Some(p),
    ensures
        sealed_of(p) == c,
{
    assert(c.len() >= 1 && c[0] == PAYLOAD_MARK);
    assert(p =~= c.drop_first().map_values(|b: u8| open_byte(b)));
    assert(p.map_values(|b: u8| seal_byte(b)) =~= c.drop_first());
    assert(sealed_of(p) =~= c);
}

} // verus!
