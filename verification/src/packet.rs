//! The TCP segment codec: a fixed 20-byte header followed by the payload.
//!
//! A segment is a byte buffer. The header fields sit at fixed offsets in
//! network byte order; the getters and setters below read and write them, and
//! their contracts say which bytes each one touches.

use vstd::prelude::*;

verus! {

/// Length of the fixed TCP header in bytes.
pub const TCP_HEADER_SIZE: usize = 20;

/// The longest segment that an IPv4 packet can carry.
pub const MAX_SEGMENT_SIZE: usize = 0xFFFF;

/// The protocol number of TCP in the IPv4 pseudo-header.
pub const PROTOCOL_TCP: u8 = 6;

/// The 16-bit word at which the checksum field sits.
pub const CHECKSUM_WORD: usize = 8;

/// The big-endian 16-bit value held in `bytes[at]` and `bytes[at + 1]`.
pub open spec fn be16_at(bytes: Seq<u8>, at: int) -> u16 {
    (bytes[at] as int * 0x100 + bytes[at + 1] as int) as u16
}

/// The big-endian 32-bit value held in the four bytes starting at `at`.
pub open spec fn be32_at(bytes: Seq<u8>, at: int) -> u32 {
    (bytes[at] as int * 0x100_0000 + bytes[at + 1] as int * 0x1_0000 + bytes[at + 2] as int
        * 0x100 + bytes[at + 3] as int) as u32
}

/// `bytes` with `value` written big-endian into `bytes[at]` and `bytes[at + 1]`.
pub open spec fn put_be16(bytes: Seq<u8>, at: int, value: u16) -> Seq<u8> {
    bytes.update(at, (value / 0x100) as u8).update(at + 1, (value % 0x100) as u8)
}

/// `bytes` with `value` written big-endian into the four bytes starting at `at`.
pub open spec fn put_be32(bytes: Seq<u8>, at: int, value: u32) -> Seq<u8> {
    bytes.update(at, (value / 0x100_0000) as u8).update(
        at + 1,
        (value / 0x1_0000 % 0x100) as u8,
    ).update(at + 2, (value / 0x100 % 0x100) as u8).update(at + 3, (value % 0x100) as u8)
}

/// The source port of the segment `bytes`.
pub open spec fn src_of(bytes: Seq<u8>) -> u16 {
    be16_at(bytes, 0)
}

/// The destination port.
pub open spec fn dst_of(bytes: Seq<u8>) -> u16 {
    be16_at(bytes, 2)
}

/// The sequence number.
pub open spec fn seq_of(bytes: Seq<u8>) -> u32 {
    be32_at(bytes, 4)
}

/// The acknowledgment number.
pub open spec fn ack_of(bytes: Seq<u8>) -> u32 {
    be32_at(bytes, 8)
}

/// The header length in bytes: the upper four bits of byte 12, times four.
pub open spec fn data_offset_of(bytes: Seq<u8>) -> u32 {
    (bytes[12] as int / 16 * 4) as u32
}

/// The control byte with the flags.
pub open spec fn flag_of(bytes: Seq<u8>) -> u8 {
    bytes[13]
}

/// The advertised window.
pub open spec fn window_size_of(bytes: Seq<u8>) -> u16 {
    be16_at(bytes, 14)
}

/// What the checksum field holds.
pub open spec fn checksum_of(bytes: Seq<u8>) -> u16 {
    be16_at(bytes, 16)
}

/// What follows the header: the bytes from the data offset on, and nothing
/// where the data offset points past the end of the segment.
pub open spec fn payload_of(bytes: Seq<u8>) -> Seq<u8> {
    if data_offset_of(bytes) <= bytes.len() {
        bytes.subrange(data_offset_of(bytes) as int, bytes.len() as int)
    } else {
        Seq::empty()
    }
}

/// The checksum that the transport computes over `data` and the IPv4
/// pseudo-header made of `source`, `destination`, `protocol` and the length of
/// `data` and `extra`, leaving out the 16-bit word of `data` at index
/// `skipword`.
pub uninterp spec fn ipv4_checksum_of(
    data: Seq<u8>,
    skipword: usize,
    extra: Seq<u8>,
    source: u32,
    destination: u32,
    protocol: u8,
) -> u16;

/// Two byte strings of one length that differ at most in the 16-bit word at
/// index `word`.
pub open spec fn same_outside_word(a: Seq<u8>, b: Seq<u8>, word: usize) -> bool {
    &&& a.len() == b.len()
    &&& forall|i: int| 0 <= i < a.len() && i != 2 * word && i != 2 * word + 1 ==> a[i] == b[i]
}

/// Calls `pnet::util::ipv4_checksum`.
///
/// Trusted: the result is a function of the six arguments alone; it does
/// not depend on the two bytes of `data` that make up the word at `skipword`,
/// which the summation passes over; and it is the same with `source` and
/// `destination` changed over, because the words of both addresses go into
/// one sum. The bound on the lengths keeps the 32-bit running sum of the
/// outside function from overflowing.
#[verifier::external_body]
fn ipv4_checksum(
    data: &[u8],
    skipword: usize,
    extra: &[u8],
    source: u32,
    destination: u32,
    protocol: u8,
) -> (r: u16)
    requires
        data@.len() + extra@.len() <= MAX_SEGMENT_SIZE,
    ensures
        r == ipv4_checksum_of(data@, skipword, extra@, source, destination, protocol),
        forall|other: Seq<u8>|
            same_outside_word(data@, other, skipword) ==> #[trigger] ipv4_checksum_of(
                other,
                skipword,
                extra@,
                source,
                destination,
                protocol,
            ) == r,
        forall|other: Seq<u8>|
            same_outside_word(data@, other, skipword) ==> #[trigger] ipv4_checksum_of(
                other,
                skipword,
                extra@,
                destination,
                source,
                protocol,
            ) == r,
{
    pnet::util::ipv4_checksum(
        data,
        skipword,
        extra,
        &source.into(),
        &destination.into(),
        pnet::packet::ip::IpNextHeaderProtocol(protocol),
    )
}

/// The TCP checksum of the segment `bytes` sent between `local_addr` and
/// `remote_addr`, computed with the checksum field left out.
pub open spec fn tcp_checksum_of(bytes: Seq<u8>, local_addr: u32, remote_addr: u32) -> u16 {
    ipv4_checksum_of(bytes, CHECKSUM_WORD, Seq::empty(), local_addr, remote_addr, PROTOCOL_TCP)
}

/// A segment is accepted when it fits an IPv4 packet and its checksum field
/// holds the checksum computed over it.
pub open spec fn checksum_ok(bytes: Seq<u8>, local_addr: u32, remote_addr: u32) -> bool {
    bytes.len() <= MAX_SEGMENT_SIZE && checksum_of(bytes) == tcp_checksum_of(
        bytes,
        local_addr,
        remote_addr,
    )
}

/// A TCP segment: header and payload in one buffer of at least 20 bytes.
#[derive(Debug)]
pub struct TCPPacket {
    buffer: Vec<u8>,
}

impl View for TCPPacket {
    type V = Seq<u8>;

    closed spec fn view(&self) -> Seq<u8> {
        self.buffer@
    }
}

impl Clone for TCPPacket {
    fn clone(&self) -> (r: Self)
        ensures
            r@ == self@,
    {
        proof {
            use_type_invariant(self);
        }
        let buffer = self.buffer.clone();
        TCPPacket { buffer }
    }
}

impl TCPPacket {
    #[verifier::type_invariant]
    spec fn well_formed(self) -> bool {
        self.buffer@.len() >= TCP_HEADER_SIZE
    }

    /// The length of the segment in bytes, never less than a header.
    pub fn len(&self) -> (r: usize)
        ensures
            r == self@.len(),
            r >= TCP_HEADER_SIZE,
    {
        proof {
            use_type_invariant(self);
        }
        self.buffer.len()
    }

    /// A zeroed segment with room for `payload_len` bytes of payload.
    pub fn new(payload_len: usize) -> (r: Self)
        requires
            TCP_HEADER_SIZE + payload_len <= usize::MAX,
        ensures
            r@ == Seq::new((TCP_HEADER_SIZE + payload_len) as nat, |i: int| 0u8),
    {
        let buffer = vec![0u8; TCP_HEADER_SIZE + payload_len];
        TCPPacket { buffer }
    }

    /// Takes received bytes as a segment, where they hold at least a header.
    pub fn from_bytes(bytes: Vec<u8>) -> (r: Option<Self>)
        ensures
            r is Some <==> bytes@.len() >= TCP_HEADER_SIZE,
            r matches Some(p) ==> p@ == bytes@,
    {
        if bytes.len() >= TCP_HEADER_SIZE {
            Some(TCPPacket { buffer: bytes })
        } else {
            None
        }
    }

    fn put16(&mut self, at: usize, value: u16)
        requires
            at + 1 < TCP_HEADER_SIZE,
        ensures
            final(self)@ == put_be16(old(self)@, at as int, value),
    {
        proof {
            use_type_invariant(&*self);
        }
        self.buffer[at] = (value / 0x100) as u8;
        self.buffer[at + 1] = (value % 0x100) as u8;
    }

    fn put32(&mut self, at: usize, value: u32)
        requires
            at + 3 < TCP_HEADER_SIZE,
        ensures
            final(self)@ == put_be32(old(self)@, at as int, value),
    {
        proof {
            use_type_invariant(&*self);
        }
        self.buffer[at] = (value / 0x100_0000) as u8;
        self.buffer[at + 1] = (value / 0x1_0000 % 0x100) as u8;
        self.buffer[at + 2] = (value / 0x100 % 0x100) as u8;
        self.buffer[at + 3] = (value % 0x100) as u8;
    }

    fn get16(&self, at: usize) -> (r: u16)
        requires
            at + 1 < TCP_HEADER_SIZE,
        ensures
            r == be16_at(self@, at as int),
    {
        proof {
            use_type_invariant(self);
        }
        self.buffer[at] as u16 * 0x100 + self.buffer[at + 1] as u16
    }

    fn get32(&self, at: usize) -> (r: u32)
        requires
            at + 3 < TCP_HEADER_SIZE,
        ensures
            r == be32_at(self@, at as int),
    {
        proof {
            use_type_invariant(self);
        }
        self.buffer[at] as u32 * 0x100_0000 + self.buffer[at + 1] as u32 * 0x1_0000
            + self.buffer[at + 2] as u32 * 0x100 + self.buffer[at + 3] as u32
    }

    /// Writes the source port.
    pub fn set_src(&mut self, port: u16)
        ensures
            final(self)@ == put_be16(old(self)@, 0, port),
    {
        self.put16(0, port);
    }

    /// Writes the destination port.
    pub fn set_dst(&mut self, port: u16)
        ensures
            final(self)@ == put_be16(old(self)@, 2, port),
    {
        self.put16(2, port);
    }

    /// Writes the sequence number.
    pub fn set_seq(&mut self, seq_num: u32)
        ensures
            final(self)@ == put_be32(old(self)@, 4, seq_num),
    {
        self.put32(4, seq_num);
    }

    /// Writes the acknowledgment number.
    pub fn set_ack(&mut self, ack_num: u32)
        ensures
            final(self)@ == put_be32(old(self)@, 8, ack_num),
    {
        self.put32(8, ack_num);
    }

    /// Writes the header length, given in 32-bit words, into the upper four
    /// bits of byte 12 and clears the lower four. Only the low four bits of
    /// `offset` fit.
    pub fn set_data_offset(&mut self, offset: u32)
        ensures
            final(self)@ == old(self)@.update(12, (offset % 16 * 16) as u8),
    {
        proof {
            use_type_invariant(&*self);
        }
        self.buffer[12] = (offset % 16 * 16) as u8;
    }

    /// Writes the control byte with the flags.
    pub fn set_flag(&mut self, flag: u8)
        ensures
            final(self)@ == old(self)@.update(13, flag),
    {
        proof {
            use_type_invariant(&*self);
        }
        self.buffer[13] = flag;
    }

    /// Writes the advertised window.
    pub fn set_window_size(&mut self, size: u16)
        ensures
            final(self)@ == put_be16(old(self)@, 14, size),
    {
        self.put16(14, size);
    }

    /// Writes the checksum field.
    pub fn set_checksum(&mut self, checksum: u16)
        ensures
            final(self)@ == put_be16(old(self)@, 16, checksum),
    {
        self.put16(16, checksum);
    }

    /// Copies `payload` into the bytes that follow the fixed header.
    pub fn set_payload(&mut self, payload: &[u8])
        requires
            TCP_HEADER_SIZE + payload@.len() <= old(self)@.len(),
        ensures
            final(self)@ == old(self)@.subrange(0, TCP_HEADER_SIZE as int) + payload@ + old(
                self,
            )@.subrange(TCP_HEADER_SIZE + payload@.len(), old(self)@.len() as int),
    {
        let n = payload.len();
        let len = self.buffer.len();
        let mut i: usize = 0;
        while i < n
            invariant
                i <= n,
                n == payload@.len(),
                len == self.buffer@.len(),
                TCP_HEADER_SIZE + n <= len,
                self.buffer@.len() == old(self).buffer@.len(),
                forall|j: int| 0 <= j < TCP_HEADER_SIZE ==> self.buffer@[j] == old(self).buffer@[j],
                forall|j: int| 0 <= j < i ==> self.buffer@[TCP_HEADER_SIZE + j] == payload@[j],
                forall|j: int|
                    TCP_HEADER_SIZE + i <= j < self.buffer@.len() ==> self.buffer@[j] == old(
                        self,
                    ).buffer@[j],
            decreases n - i,
        {
            self.buffer[TCP_HEADER_SIZE + i] = payload[i];
            i += 1;
        }
    }

    /// The source port.
    pub fn get_src(&self) -> (r: u16)
        ensures
            r == src_of(self@),
    {
        self.get16(0)
    }

    /// The destination port.
    pub fn get_dst(&self) -> (r: u16)
        ensures
            r == dst_of(self@),
    {
        self.get16(2)
    }

    /// The sequence number.
    pub fn get_seq(&self) -> (r: u32)
        ensures
            r == seq_of(self@),
    {
        self.get32(4)
    }

    /// The acknowledgment number.
    pub fn get_ack(&self) -> (r: u32)
        ensures
            r == ack_of(self@),
    {
        self.get32(8)
    }

    /// The control byte with the flags.
    pub fn get_flag(&self) -> (r: u8)
        ensures
            r == flag_of(self@),
    {
        proof {
            use_type_invariant(self);
        }
        self.buffer[13]
    }

    /// The advertised window.
    pub fn get_window_size(&self) -> (r: u16)
        ensures
            r == window_size_of(self@),
    {
        self.get16(14)
    }

    /// What the checksum field holds.
    pub fn get_checksum(&self) -> (r: u16)
        ensures
            r == checksum_of(self@),
    {
        self.get16(16)
    }

    /// The header length in bytes.
    pub fn get_data_offset(&self) -> (r: u32)
        ensures
            r == data_offset_of(self@),
    {
        proof {
            use_type_invariant(self);
        }
        (self.buffer[12] / 16) as u32 * 4
    }

    /// Whether the checksum field holds the checksum of this segment as sent
    /// from `remote_addr` to `local_addr`.
    pub fn is_correct_checksum(&self, local_addr: u32, remote_addr: u32) -> (r: bool)
        ensures
            r == checksum_ok(self@, local_addr, remote_addr),
    {
        if self.buffer.len() > MAX_SEGMENT_SIZE {
            return false;
        }
        let extra: Vec<u8> = Vec::new();
        let expected = ipv4_checksum(
            self.buffer.as_slice(),
            CHECKSUM_WORD,
            extra.as_slice(),
            local_addr,
            remote_addr,
            PROTOCOL_TCP,
        );
        self.get_checksum() == expected
    }

    /// Computes the checksum of this segment for the given address pair and
    /// writes it into the checksum field. The segment then passes the check
    /// at either end of the pair.
    pub fn seal(&mut self, local_addr: u32, remote_addr: u32)
        requires
            old(self)@.len() <= MAX_SEGMENT_SIZE,
        ensures
            final(self)@ == put_be16(
                old(self)@,
                16,
                tcp_checksum_of(old(self)@, local_addr, remote_addr),
            ),
            checksum_ok(final(self)@, local_addr, remote_addr),
            checksum_ok(final(self)@, remote_addr, local_addr),
    {
        proof {
            use_type_invariant(&*self);
        }
        let extra: Vec<u8> = Vec::new();
        let checksum = ipv4_checksum(
            self.buffer.as_slice(),
            CHECKSUM_WORD,
            extra.as_slice(),
            local_addr,
            remote_addr,
            PROTOCOL_TCP,
        );
        self.set_checksum(checksum);
    }

    /// The whole segment, header and payload.
    pub fn packet(&self) -> (r: &[u8])
        ensures
            r@ == self@,
    {
        self.buffer.as_slice()
    }

    /// The bytes after the header, as far as the data offset lies inside the
    /// segment.
    pub fn payload(&self) -> (r: &[u8])
        ensures
            r@ == payload_of(self@),
    {
        proof {
            use_type_invariant(self);
        }
        let offset = self.get_data_offset() as usize;
        let len = self.buffer.len();
        if offset <= len {
            vstd::slice::slice_subrange(self.buffer.as_slice(), offset, len)
        } else {
            vstd::slice::slice_subrange(self.buffer.as_slice(), 0, 0)
        }
    }
}

/// Reading a 32-bit field back gives what was written, and the length stays.
pub proof fn lemma_be32_round_trip(bytes: Seq<u8>, at: int, value: u32)
    requires
        0 <= at,
        at + 3 < bytes.len(),
    ensures
        be32_at(put_be32(bytes, at, value), at) == value,
        put_be32(bytes, at, value).len() == bytes.len(),
{
}

} // verus!
