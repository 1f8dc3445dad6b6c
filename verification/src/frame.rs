//! Datagram framing: one encoded message per datagram, its integrity
//! guarded end to end by a trailing checksum. Oversized payloads are
//! refused; the transport never retries — re-driving on timeout belongs to
//! the proposer and the client.

use vstd::prelude::*;

use crate::msg::opt_bytes_view;

verus! {

/// Largest framed datagram the carrier accepts.
pub const MAX_MSG_BYTES: usize = 64 * 1024;

/// The checksum of a byte sequence as crc32fast computes it: a function of
/// the bytes alone, identical on every machine.
pub uninterp spec fn crc32_of(data: Seq<u8>) -> u32;

/// Relies on crc32fast::hash: the CRC-32 checksum of the buffer, which
/// depends on the buffer's bytes alone.
#[verifier::external_body]
fn crc32(data: &Vec<u8>) -> (r: u32)
    ensures
        r == crc32_of(data@),
{
    crc32fast::hash(data.as_slice())
}

/// A 32-bit checksum serialized little-endian into four bytes.
pub open spec fn le_bytes32(x: u32) -> Seq<u8> {
    seq![
        (x % 256) as u8,
        ((x / 256) % 256) as u8,
        ((x / 65536) % 256) as u8,
        ((x / 16777216) % 256) as u8,
    ]
}

/// A frame is the payload followed by its little-endian checksum; a payload
/// that would not fit in a datagram is refused.
pub open spec fn frame_spec(payload: Seq<u8>) -> Option<Seq<u8>> {
    if payload.len() + 4 <= MAX_MSG_BYTES {
        Some(payload + le_bytes32(crc32_of(payload)))
    } else {
        None
    }
}

/// A buffer unframes to its payload exactly when it is long enough to carry
/// a checksum and its last four bytes equal the checksum of the rest.
pub open spec fn unframe_spec(buf: Seq<u8>) -> Option<Seq<u8>> {
    if buf.len() >= 4 && buf.subrange(buf.len() - 4, buf.len() as int) == le_bytes32(
        crc32_of(buf.subrange(0, buf.len() - 4)),
    ) {
        Some(buf.subrange(0, buf.len() - 4))
    } else {
        None
    }
}

/// Append the checksum to a payload, refusing one that cannot fit in a
/// datagram.
pub fn frame(payload: &Vec<u8>) -> (r: Option<Vec<u8>>)
    ensures
        opt_bytes_view(&r) == frame_spec(payload@),
{
    if payload.len() > MAX_MSG_BYTES - 4 {
        return None;
    }
    let mut f = payload.clone();
    let c = crc32(payload);
    f.push((c % 256) as u8);
    f.push(((c / 256) % 256) as u8);
    f.push(((c / 65536) % 256) as u8);
    f.push(((c / 16777216) % 256) as u8);
    proof {
        assert(f@ =~= payload@ + le_bytes32(crc32_of(payload@)));
    }
    Some(f)
}

/// Verify and strip the trailing checksum of a received buffer.
pub fn unframe(buf: &Vec<u8>) -> (r: Option<Vec<u8>>)
    ensures
        opt_bytes_view(&r) == unframe_spec(buf@),
{
    if buf.len() < 4 {
        return None;
    }
    let n = buf.len() - 4;
    let mut data: Vec<u8> = Vec::new();
    let mut i: usize = 0;
    while i < n
        invariant
            i <= n,
            n + 4 == buf@.len(),
            data@ == buf@.subrange(0, i as int),
        decreases n - i,
    {
        data.push(buf[i]);
        proof {
            assert(data@ =~= buf@.subrange(0, i + 1));
        }
        i += 1;
    }
    let c = crc32(&data);
    let tail_ok = buf[n] == (c % 256) as u8 && buf[n + 1] == ((c / 256) % 256) as u8 && buf[n + 2]
        == ((c / 65536) % 256) as u8 && buf[n + 3] == ((c / 16777216) % 256) as u8;
    let ghost tail = buf@.subrange(n as int, buf@.len() as int);
    let ghost check = le_bytes32(crc32_of(data@));
    if tail_ok {
        proof {
            assert(tail =~= check);
        }
        Some(data)
    } else {
        proof {
            if tail == check {
                assert(tail[0] == check[0] && tail[1] == check[1] && tail[2] == check[2] && tail[3]
                    == check[3]);
                assert(buf@[n as int] == (c % 256) as u8);
                assert(false);
            }
        }
        None
    }
}

/// Framing then unframing hands the payload back unchanged: the checksum
/// appended by `frame` is exactly what `unframe` recomputes.
pub proof fn lemma_frame_round_trip(payload: Seq<u8>)
    requires
        payload.len() + 4 <= MAX_MSG_BYTES,
    ensures
        frame_spec(payload) matches Some(f) && unframe_spec(f) == Some(payload),
{
    let f = payload + le_bytes32(crc32_of(payload));
    assert(f.subrange(0, f.len() - 4) =~= payload);
    assert(f.subrange(f.len() - 4, f.len() as int) =~= le_bytes32(crc32_of(payload)));
}

} // verus!
