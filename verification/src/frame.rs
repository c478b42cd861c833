//! Length-prefixed wire framing: a 32-bit big-endian length header in front
//! of each payload.

use vstd::prelude::*;

verus! {

/// The four big-endian header bytes of a length.
pub open spec fn be32(n: u32) -> Seq<u8> {
    seq![(n >> 24) as u8, (n >> 16) as u8, (n >> 8) as u8, n as u8]
}

/// The value the four header bytes spell.
pub open spec fn be32_value(b: Seq<u8>) -> u32 {
    (((b[0] as u32) << 24) | ((b[1] as u32) << 16) | ((b[2] as u32) << 8) | (b[3] as u32)) as u32
}

/// The header round-trips: reading the four bytes of a length gives it back.
pub proof fn lemma_be32_roundtrip(n: u32)
    ensures
        be32_value(be32(n)) == n,
{
    assert((((((n >> 24) as u8) as u32) << 24) | ((((n >> 16) as u8) as u32) << 16) | ((((n
        >> 8) as u8) as u32) << 8) | ((n as u8) as u32)) == n) by (bit_vector);
}

/// Frame a payload: the header spells the payload length, the payload
/// follows. A payload too long for the header is refused.
pub fn encode_frame(payload: &Vec<u8>) -> (r: Result<Vec<u8>, String>)
    ensures
        match r {
            Ok(f) => {
                &&& payload@.len() <= u32::MAX
                &&& f@.len() == 4 + payload@.len()
                &&& f@.subrange(0, 4) == be32(payload@.len() as u32)
                &&& be32_value(f@.subrange(0, 4)) == payload@.len()
                &&& f@.subrange(4, f@.len() as int) == payload@
            },
            Err(_) => payload@.len() > u32::MAX,
        },
{
    if payload.len() > u32::MAX as usize {
        return Err("Frame payload too long for a 32-bit length header".to_owned());
    }
    let n = payload.len() as u32;
    let mut f: Vec<u8> = Vec::new();
    f.push((n >> 24) as u8);
    f.push((n >> 16) as u8);
    f.push((n >> 8) as u8);
    f.push(n as u8);
    let m = payload.len();
    let mut i: usize = 0;
    while i < m
        invariant
            m == payload@.len(),
            i <= m,
            f@.len() == 4 + i,
            f@.subrange(0, 4) =~= be32(m as u32),
            f@.subrange(4, f@.len() as int) =~= payload@.subrange(0, i as int),
        decreases m - i,
    {
        f.push(payload[i]);
        proof {
            assert(f@.subrange(0, 4) =~= be32(m as u32));
            assert(f@.subrange(4, f@.len() as int) =~= payload@.subrange(0, i + 1 as int));
        }
        i += 1;
    }
    proof {
        assert(payload@.subrange(0, m as int) =~= payload@);
        lemma_be32_roundtrip(m as u32);
    }
    Ok(f)
}

/// Read one frame off the front of a buffer: the payload and the bytes
/// consumed, or nothing while the buffer is still short.
pub fn decode_frame(buf: &Vec<u8>) -> (r: Option<(Vec<u8>, usize)>)
    ensures
        match r {
            Some(pc) => {
                &&& buf@.len() >= 4
                &&& pc.0@.len() == be32_value(buf@.subrange(0, 4))
                &&& pc.1 == 4 + pc.0@.len()
                &&& pc.1 <= buf@.len()
                &&& pc.0@ == buf@.subrange(4, pc.1 as int)
            },
            None => buf@.len() < 4 || buf@.len() < 4 + be32_value(buf@.subrange(0, 4)),
        },
{
    if buf.len() < 4 {
        return None;
    }
    let n: u32 = (((buf[0] as u32) << 24) as u32 | ((buf[1] as u32) << 16) as u32 | ((buf[2]
        as u32) << 8) as u32 | buf[3] as u32) as u32;
    proof {
        assert(n == be32_value(buf@.subrange(0, 4)));
    }
    if buf.len() - 4 < n as usize {
        return None;
    }
    let total: usize = 4 + n as usize;
    let mut payload: Vec<u8> = Vec::new();
    let mut i: usize = 4;
    while i < total
        invariant
            4 <= i <= total <= buf@.len(),
            total == 4 + n,
            payload@.len() == i - 4,
            payload@ =~= buf@.subrange(4, i as int),
        decreases total - i,
    {
        payload.push(buf[i]);
        proof {
            assert(payload@ =~= buf@.subrange(4, i + 1 as int));
        }
        i += 1;
    }
    Some((payload, total))
}

} // verus!
