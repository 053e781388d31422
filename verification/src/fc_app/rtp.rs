//! Headers of RTP packets.

use vstd::prelude::*;

verus! {

/// Payload type of the video packets.
pub const VIDEO_PAYLOAD_TYPE: u8 = 96;

/// Length of the fixed part of a header.
pub const RTP_HEADER_LEN: usize = 12;

/// The fixed part of the header of an RTP packet.
#[derive(Clone, Copy, Debug, PartialEq, Eq, Structural)]
pub struct RtpHeader {
    /// Version of RTP.
    pub version: u8,
    /// Whether the packet ends with padding.
    pub padding: bool,
    /// Whether an extension follows the header.
    pub extension: bool,
    /// Number of contributing sources.
    pub csrc_count: u8,
    /// Whether the packet is the last one of a frame.
    pub marker: bool,
    /// Type of the payload.
    pub payload_type: u8,
    /// Sequence number.
    pub sequence_number: u16,
    /// Timestamp.
    pub timestamp: u32,
    /// Synchronization source.
    pub ssrc: u32,
}

/// The header that starts a packet.
pub open spec fn header_of(b: Seq<u8>) -> RtpHeader {
    RtpHeader {
        version: b[0] / 64,
        padding: (b[0] / 32) % 2 == 1,
        extension: (b[0] / 16) % 2 == 1,
        csrc_count: b[0] % 16,
        marker: b[1] >= 128,
        payload_type: b[1] % 128,
        sequence_number: (b[2] * 256 + b[3]) as u16,
        timestamp: (b[4] * 16777216 + b[5] * 65536 + b[6] * 256 + b[7]) as u32,
        ssrc: (b[8] * 16777216 + b[9] * 65536 + b[10] * 256 + b[11]) as u32,
    }
}

/// A 32-bit number in network byte order.
fn be_u32(b: &Vec<u8>, i: usize) -> (r: u32)
    requires
        i + 4 <= b@.len(),
    ensures
        r == b@[i as int] * 16777216 + b@[i + 1] * 65536 + b@[i + 2] * 256 + b@[i + 3],
{
    let n: usize = b.len();
    assert(i + 4 <= n);
    b[i] as u32 * 16777216 + b[i + 1] as u32 * 65536 + b[i + 2] as u32 * 256 + b[i + 3] as u32
}

impl RtpHeader {
    /// The header that starts a packet.
    pub fn from_bytes(b: &Vec<u8>) -> (h: RtpHeader)
        requires
            b@.len() >= RTP_HEADER_LEN,
        ensures
            h == header_of(b@),
    {
        RtpHeader {
            version: b[0] / 64,
            padding: (b[0] / 32) % 2 == 1,
            extension: (b[0] / 16) % 2 == 1,
            csrc_count: b[0] % 16,
            marker: b[1] >= 128,
            payload_type: b[1] % 128,
            sequence_number: b[2] as u16 * 256 + b[3] as u16,
            timestamp: be_u32(b, 4),
            ssrc: be_u32(b, 8),
        }
    }
}

/// The header depends on its twelve bytes alone.
pub proof fn header_depends_on_its_bytes(a: Seq<u8>, b: Seq<u8>)
    requires
        a.len() >= RTP_HEADER_LEN,
        b.len() >= RTP_HEADER_LEN,
        a.take(RTP_HEADER_LEN as int) == b.take(RTP_HEADER_LEN as int),
    ensures
        header_of(a) == header_of(b),
{
    let x = a.take(RTP_HEADER_LEN as int);
    assert forall|i: int| 0 <= i < RTP_HEADER_LEN implies a[i] == b[i] by {
        assert(x[i] == a[i]);
    }
}

/// The fields of a header are the bits of its twelve bytes, in network byte order: put
/// together again they are these bytes.
pub proof fn fields_are_the_bits_of_the_header(b: Seq<u8>)
    requires
        b.len() >= 12,
    ensures
        ({
            let h = header_of(b);
            let bit = |x: bool| if x {
                1int
            } else {
                0
            };
            &&& h.version < 4 && h.csrc_count < 16 && h.payload_type < 128
            &&& h.version * 64 + bit(h.padding) * 32 + bit(h.extension) * 16 + h.csrc_count == b[0]
            &&& bit(h.marker) * 128 + h.payload_type == b[1]
            &&& h.sequence_number / 256 == b[2] && h.sequence_number % 256 == b[3]
            &&& h.timestamp / 16777216 == b[4] && (h.timestamp / 65536) % 256 == b[5]
            &&& (h.timestamp / 256) % 256 == b[6] && h.timestamp % 256 == b[7]
            &&& h.ssrc / 16777216 == b[8] && (h.ssrc / 65536) % 256 == b[9]
            &&& (h.ssrc / 256) % 256 == b[10] && h.ssrc % 256 == b[11]
        }),
{
    lemma_four_bytes(b[4], b[5], b[6], b[7]);
    lemma_four_bytes(b[8], b[9], b[10], b[11]);
    let first = b[0];
    assert(first == (first / 64) * 64 + ((first / 32) % 2) * 32 + ((first / 16) % 2) * 16 + first
        % 16) by (bit_vector);
    assert((first / 32) % 2 <= 1 && (first / 16) % 2 <= 1);
}

/// The four bytes of a number in network byte order.
proof fn lemma_four_bytes(a: u8, b: u8, c: u8, d: u8)
    ensures
        ({
            let n = (a * 16777216 + b * 65536 + c * 256 + d) as u32;
            n / 16777216 == a && (n / 65536) % 256 == b && (n / 256) % 256 == c && n % 256 == d
        }),
{
    let n = (a * 16777216 + b * 65536 + c * 256 + d) as u32;
    assert(n == a * 16777216 + b * 65536 + c * 256 + d);
    assert(n / 16777216 == a);
    assert(n / 65536 == a * 256 + b);
    assert(n / 256 == a * 65536 + b * 256 + c);
}

} // verus!
