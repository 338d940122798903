//! Frame layer for the gateway link.
//!
//! Every message travels as one frame: a one-byte format tag (0 for JSON,
//! 1 for MessagePack), a four-byte big-endian payload length, and the
//! payload bytes. This module checks and strips frames from an inbound
//! byte buffer and builds outbound frames; turning payload bytes into
//! message values is the transport's concern, outside this crate.
use vstd::prelude::*;

verus! {

/// Payload encoding named by a frame's tag byte.
#[derive(Clone, Copy, Debug, PartialEq, Eq, Structural)]
pub enum MessageFormat {
    Json,
    MessagePack,
}

impl MessageFormat {
    /// The tag byte that names this format on the wire.
    pub open spec fn spec_tag(self) -> u8 {
        match self {
            MessageFormat::Json => 0,
            MessageFormat::MessagePack => 1,
        }
    }

    /// Returns the tag byte that names this format on the wire.
    pub fn tag_byte(&self) -> (t: u8)
        ensures
            t == self.spec_tag(),
    {
        match self {
            MessageFormat::Json => 0,
            MessageFormat::MessagePack => 1,
        }
    }
}

/// The format a recognized tag byte names.
pub open spec fn format_of_tag(tag: u8) -> MessageFormat {
    if tag == 0 {
        MessageFormat::Json
    } else {
        MessageFormat::MessagePack
    }
}

/// A malformed or unencodable frame.
#[derive(Clone, Copy, Debug, PartialEq, Eq, Structural)]
pub enum FrameError {
    /// The frame's tag byte names no known format; the connection should
    /// be closed.
    UnknownFormat { tag: u8 },
    /// The payload does not fit the four-byte length field.
    PayloadTooLong,
}

/// Splits inbound frames off a byte buffer and builds outbound frames.
pub struct MessageCodec {
    /// The format used for outbound frames; inbound frames carry their own.
    pub encoding: MessageFormat,
}

/// The big-endian 32-bit value of four bytes.
pub open spec fn be_u32(b0: u8, b1: u8, b2: u8, b3: u8) -> u32 {
    ((b0 as u32) << 24) | ((b1 as u32) << 16) | ((b2 as u32) << 8) | (b3 as u32)
}

/// The four big-endian bytes of a 32-bit value.
pub open spec fn be_u32_bytes(n: u32) -> Seq<u8> {
    seq![(n >> 24) as u8, (n >> 16) as u8, (n >> 8) as u8, n as u8]
}

/// Reading back the four big-endian bytes of `n` yields `n`.
pub proof fn lemma_be_u32_round_trip(n: u32)
    ensures
        be_u32(be_u32_bytes(n)[0], be_u32_bytes(n)[1], be_u32_bytes(n)[2], be_u32_bytes(n)[3])
            == n,
{
    assert((((((n >> 24) as u8) as u32) << 24) | ((((n >> 16) as u8) as u32) << 16) | ((((n >> 8)
        as u8) as u32) << 8) | (((n as u8)) as u32)) == n) by (bit_vector);
}

/// The payload length a buffer's header declares. Meaningful only when the
/// buffer holds at least the five header bytes.
pub open spec fn frame_payload_len(s: Seq<u8>) -> int
    recommends
        s.len() >= 5,
{
    be_u32(s[1], s[2], s[3], s[4]) as int
}

/// The complete wire form of one frame.
pub open spec fn spec_encode_frame(format: MessageFormat, payload: Seq<u8>) -> Seq<u8> {
    seq![format.spec_tag()] + be_u32_bytes(payload.len() as u32) + payload
}

impl MessageCodec {
    /// Splits one frame off the front of `src`.
    ///
    /// Returns `Ok(None)` when `src` does not yet hold a complete frame
    /// (more bytes must be read), `Err` when the tag byte names no known
    /// format, and otherwise the frame's format and payload, with the
    /// frame's bytes removed from `src`.
    pub fn decode(&mut self, src: &mut Vec<u8>) -> (r: Result<
        Option<(MessageFormat, Vec<u8>)>,
        FrameError,
    >)
        ensures
            *final(self) == *old(self),
            old(src)@.len() < 5 ==> (r matches Ok(None) && final(src)@ == old(src)@),
            old(src)@.len() >= 5 && old(src)@[0] > 1 ==> (r matches Err(e) && e
                == (FrameError::UnknownFormat { tag: old(src)@[0] })) && final(src)@ == old(src)@,
            old(src)@.len() >= 5 && old(src)@[0] <= 1 && old(src)@.len() < 5 + frame_payload_len(
                old(src)@,
            ) ==> (r matches Ok(None) && final(src)@ == old(src)@),
            old(src)@.len() >= 5 && old(src)@[0] <= 1 && old(src)@.len() >= 5 + frame_payload_len(
                old(src)@,
            ) ==> (r matches Ok(Some((format, payload))) && format == format_of_tag(old(src)@[0])
                && payload@ == old(src)@.subrange(5, 5 + frame_payload_len(old(src)@)))
                && final(src)@ == old(src)@.skip(5 + frame_payload_len(old(src)@)),
    {
        if src.len() < 5 {
            return Ok(None);
        }
        let tag = src[0];
        if tag > 1 {
            return Err(FrameError::UnknownFormat { tag });
        }
        let format = if tag == 0 {
            MessageFormat::Json
        } else {
            MessageFormat::MessagePack
        };
        let len_u32: u32 = ((src[1] as u32) << 24) | ((src[2] as u32) << 16) | ((src[3] as u32)
            << 8) | (src[4] as u32);
        let needed: u64 = 5u64 + (len_u32 as u64);
        if (src.len() as u64) < needed {
            return Ok(None);
        }
        let total: usize = needed as usize;
        let mut payload: Vec<u8> = Vec::new();
        let mut i: usize = 5;
        while i < total
            invariant
                5 <= i <= total,
                total == 5 + frame_payload_len(src@),
                total <= src@.len(),
                src@ == old(src)@,
                payload@ == src@.subrange(5, i as int),
            decreases total - i,
        {
            let b = src[i];
            payload.push(b);
            proof {
                assert(src@.subrange(5, i + 1 as int) =~= src@.subrange(5, i as int).push(
                    src@[i as int],
                ));
            }
            i += 1;
        }
        let mut rest: Vec<u8> = Vec::new();
        let mut j: usize = total;
        while j < src.len()
            invariant
                total <= j <= src@.len(),
                src@ == old(src)@,
                rest@ == src@.subrange(total as int, j as int),
            decreases src@.len() - j,
        {
            let b = src[j];
            rest.push(b);
            proof {
                assert(src@.subrange(total as int, j + 1 as int) =~= src@.subrange(
                    total as int,
                    j as int,
                ).push(src@[j as int]));
            }
            j += 1;
        }
        *src = rest;
        proof {
            assert(src@ =~= old(src)@.skip(5 + frame_payload_len(old(src)@)));
        }
        Ok(Some((format, payload)))
    }

    /// Appends one frame carrying `payload` to `dst`, in this codec's
    /// outbound format.
    ///
    /// Fails, leaving `dst` untouched, only when the payload is too long
    /// for the four-byte length field.
    pub fn encode(&mut self, payload: &Vec<u8>, dst: &mut Vec<u8>) -> (r: Result<(), FrameError>)
        ensures
            *final(self) == *old(self),
            payload@.len() <= u32::MAX ==> (r matches Ok(_) && final(dst)@ == old(dst)@
                + spec_encode_frame(old(self).encoding, payload@)),
            payload@.len() > u32::MAX ==> (r matches Err(e) && e == FrameError::PayloadTooLong
                && final(dst)@ == old(dst)@),
    {
        if (payload.len() as u64) > (u32::MAX as u64) {
            return Err(FrameError::PayloadTooLong);
        }
        let len: u32 = payload.len() as u32;
        dst.push(self.encoding.tag_byte());
        dst.push((len >> 24) as u8);
        dst.push((len >> 16) as u8);
        dst.push((len >> 8) as u8);
        dst.push(len as u8);
        proof {
            assert(dst@ =~= old(dst)@ + seq![old(self).encoding.spec_tag()] + be_u32_bytes(
                payload@.len() as u32,
            ));
        }
        let ghost header: Seq<u8> = dst@;
        let mut k: usize = 0;
        while k < payload.len()
            invariant
                k <= payload@.len(),
                dst@ == header + payload@.subrange(0, k as int),
            decreases payload@.len() - k,
        {
            let b = payload[k];
            dst.push(b);
            proof {
                assert(payload@.subrange(0, k + 1 as int) =~= payload@.subrange(0, k as int).push(
                    payload@[k as int],
                ));
            }
            k += 1;
        }
        proof {
            assert(payload@.subrange(0, payload@.len() as int) =~= payload@);
            assert(dst@ =~= old(dst)@ + spec_encode_frame(old(self).encoding, payload@));
        }
        Ok(())
    }
}

/// Round trip of the frame layer: a buffer holding an encoded frame
/// followed by any further bytes parses back to exactly the frame's
/// format and payload, leaving the further bytes in place.
pub proof fn lemma_frame_round_trip(format: MessageFormat, payload: Seq<u8>, rest: Seq<u8>)
    requires
        payload.len() <= u32::MAX,
    ensures
        ({
            let s = spec_encode_frame(format, payload) + rest;
            &&& s.len() == 5 + payload.len() + rest.len()
            &&& s[0] == format.spec_tag()
            &&& s[0] <= 1
            &&& format_of_tag(s[0]) == format
            &&& frame_payload_len(s) == payload.len()
            &&& s.subrange(5, 5 + payload.len() as int) == payload
            &&& s.skip(5 + payload.len() as int) == rest
        }),
{
    let s = spec_encode_frame(format, payload) + rest;
    lemma_be_u32_round_trip(payload.len() as u32);
    assert(s[1] == be_u32_bytes(payload.len() as u32)[0]);
    assert(s[2] == be_u32_bytes(payload.len() as u32)[1]);
    assert(s[3] == be_u32_bytes(payload.len() as u32)[2]);
    assert(s[4] == be_u32_bytes(payload.len() as u32)[3]);
    assert(s.subrange(5, 5 + payload.len() as int) =~= payload);
    assert(s.skip(5 + payload.len() as int) =~= rest);
}

} // verus!
