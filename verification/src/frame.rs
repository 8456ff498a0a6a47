//! Framing: header + payload + RS(255,223) parity + CRC32.
//!
//! A frame is `FRAME_LEN` bytes: the 223-byte Reed–Solomon data block
//! (4-byte header, payload, zero padding), its 32 parity bytes, and a
//! big-endian CRC-32 over the header and payload.

use vstd::prelude::*;

use crate::crc::{crc32, spec_crc32};
use crate::text::{bin8, decimal, hex2, push_bin8, push_decimal, push_hex2};
use crate::rs::{
    is_rs_codeword, rs_decoded, rs_decode, rs_encode, rs_parity, RS_DATA, RS_PARITY, RS_TOTAL,
};

verus! {

pub const HEADER_LEN: usize = 4;

/// 223 - 4 = 219 bytes of payload per frame.
pub const MAX_PAYLOAD: usize = 219;

/// 255 + 4 CRC = 259 bytes.
pub const FRAME_LEN: usize = 259;

pub const VERSION: u8 = 0x01;

#[derive(Debug, Clone, Copy, PartialEq, Eq, Structural)]
pub struct FrameHeader {
    pub first: bool,
    pub last: bool,
    pub ultrasonic: bool,
    pub payload_len: u16,
}

#[derive(Debug, Clone, Copy, PartialEq, Eq, Structural)]
pub enum FrameError {
    PayloadTooLong(u16),
    HeaderPayloadLenMismatch { header_says: u16, got: usize },
    BadVersion(u8),
    ReservedFlagsSet(u8),
    BadLength(usize),
    RsUncorrectable,
    CrcMismatch,
}

pub open spec fn bit(b: bool) -> u8 {
    if b {
        1
    } else {
        0
    }
}

/// Bit 0 = first, bit 1 = last, bit 2 = ultrasonic; bits 3-7 are zero.
pub open spec fn spec_flags(h: FrameHeader) -> u8 {
    (bit(h.first) + 2 * bit(h.last) + 4 * bit(h.ultrasonic)) as u8
}

/// The four header bytes: version, flags, payload length big-endian.
pub open spec fn spec_header_bytes(h: FrameHeader) -> Seq<u8> {
    seq![VERSION, spec_flags(h), (h.payload_len / 256) as u8, (h.payload_len % 256) as u8]
}

/// The big-endian length field of a header.
pub open spec fn be16(hi: u8, lo: u8) -> u16 {
    (hi * 256 + lo) as u16
}

/// What a header decodes to: the version must be `VERSION`, only the low
/// three flag bits may be set, and the length must fit in a frame.
pub open spec fn spec_header_from_bytes(b: Seq<u8>) -> Result<FrameHeader, FrameError>
    recommends
        b.len() == HEADER_LEN,
{
    if b[0] != VERSION {
        Err(FrameError::BadVersion(b[0]))
    } else if b[1] >= 8 {
        Err(FrameError::ReservedFlagsSet(b[1]))
    } else if be16(b[2], b[3]) > MAX_PAYLOAD {
        Err(FrameError::PayloadTooLong(be16(b[2], b[3])))
    } else {
        Ok(
            FrameHeader {
                first: b[1] % 2 == 1,
                last: (b[1] / 2) % 2 == 1,
                ultrasonic: (b[1] / 4) % 2 == 1,
                payload_len: be16(b[2], b[3]),
            },
        )
    }
}

/// The 223-byte block that Reed–Solomon protects: header, payload, zeros.
pub open spec fn spec_data_block(h: FrameHeader, payload: Seq<u8>) -> Seq<u8> {
    spec_header_bytes(h) + payload + Seq::new((RS_DATA - HEADER_LEN - payload.len()) as nat, |i: int| 0u8)
}

/// A 32-bit value as four big-endian bytes.
pub open spec fn be32_bytes(x: u32) -> Seq<u8> {
    seq![
        (x / 0x100_0000) as u8,
        ((x / 0x1_0000) % 256) as u8,
        ((x / 0x100) % 256) as u8,
        (x % 256) as u8,
    ]
}

/// Four big-endian bytes as a 32-bit value.
pub open spec fn be32_value(b: Seq<u8>) -> u32 {
    (b[0] * 0x100_0000 + b[1] * 0x1_0000 + b[2] * 0x100 + b[3]) as u32
}

/// The frame for a header and a payload that fits it.
pub open spec fn spec_frame(h: FrameHeader, payload: Seq<u8>) -> Seq<u8> {
    let data = spec_data_block(h, payload);
    data + rs_parity(data) + be32_bytes(spec_crc32(spec_header_bytes(h) + payload))
}

/// What `encode_frame` returns for a header and a payload.
pub open spec fn spec_encode_frame(h: FrameHeader, payload: Seq<u8>) -> Result<Seq<u8>, FrameError> {
    if payload.len() != h.payload_len {
        Err(FrameError::HeaderPayloadLenMismatch { header_says: h.payload_len, got: payload.len() as usize })
    } else if payload.len() > MAX_PAYLOAD {
        Err(FrameError::PayloadTooLong(payload.len() as u16))
    } else {
        Ok(spec_frame(h, payload))
    }
}

/// What `decode_frame` returns for the bytes of one frame: the length is
/// checked, the codeword corrected, the header parsed, the payload taken from
/// the corrected block and the CRC over header and payload compared with the
/// trailer.
pub open spec fn spec_decode_frame(bytes: Seq<u8>) -> Result<(FrameHeader, Seq<u8>), FrameError> {
    if bytes.len() != FRAME_LEN {
        Err(FrameError::BadLength(bytes.len() as usize))
    } else {
        match rs_decoded(bytes.subrange(0, RS_TOTAL as int)) {
            None => Err(FrameError::RsUncorrectable),
            Some(data) => match spec_header_from_bytes(data.subrange(0, HEADER_LEN as int)) {
                Err(e) => Err(e),
                Ok(h) => {
                    let end = HEADER_LEN + h.payload_len;
                    if be32_value(bytes.subrange(RS_TOTAL as int, FRAME_LEN as int))
                        != spec_crc32(data.subrange(0, end)) {
                        Err(FrameError::CrcMismatch)
                    } else {
                        Ok((h, data.subrange(HEADER_LEN as int, end)))
                    }
                },
            },
        }
    }
}

impl FrameHeader {
    pub fn flags_byte(&self) -> (f: u8)
        ensures
            f == spec_flags(*self),
            f < 8,
    {
        let a: u8 = if self.first { 1 } else { 0 };
        let b: u8 = if self.last { 1 } else { 0 };
        let c: u8 = if self.ultrasonic { 1 } else { 0 };
        assert(a | (b << 1) | (c << 2) == a + 2 * b + 4 * c) by (bit_vector)
            requires
                a <= 1,
                b <= 1,
                c <= 1,
        ;
        a | (b << 1) | (c << 2)
    }

    pub fn from_bytes(b: &[u8; HEADER_LEN]) -> (res: Result<Self, FrameError>)
        ensures
            res == spec_header_from_bytes(b@),
    {
        if b[0] != VERSION {
            return Err(FrameError::BadVersion(b[0]));
        }
        let flags = b[1];
        // Bit 0=first, 1=last, 2=ultrasonic; bits 3-7 are reserved and must be zero.
        if flags & 0xf8 != 0 {
            assert(flags & 0xf8 != 0 ==> flags >= 8) by (bit_vector);
            return Err(FrameError::ReservedFlagsSet(flags));
        }
        assert(flags & 0xf8 == 0 ==> flags < 8) by (bit_vector);
        let hi = b[2];
        let lo = b[3];
        assert(((hi as u16) << 8) | (lo as u16) == hi * 256 + lo) by (bit_vector);
        let payload_len: u16 = ((hi as u16) << 8) | (lo as u16);
        if payload_len as usize > MAX_PAYLOAD {
            return Err(FrameError::PayloadTooLong(payload_len));
        }
        assert((flags & 1 != 0) == (flags % 2 == 1)) by (bit_vector);
        assert((flags & 2 != 0) == ((flags / 2) % 2 == 1)) by (bit_vector);
        assert((flags & 4 != 0) == ((flags / 4) % 2 == 1)) by (bit_vector);
        Ok(
            Self {
                first: flags & 1 != 0,
                last: flags & 2 != 0,
                ultrasonic: flags & 4 != 0,
                payload_len,
            },
        )
    }

    pub fn to_bytes(&self) -> (h: [u8; HEADER_LEN])
        ensures
            h@ == spec_header_bytes(*self),
    {
        let len = self.payload_len;
        assert((len >> 8) as u8 == len / 256) by (bit_vector);
        assert((len & 0xff) as u8 == len % 256) by (bit_vector);
        let mut h = [0u8; HEADER_LEN];
        h[0] = VERSION;
        h[1] = self.flags_byte();
        h[2] = (len >> 8) as u8;
        h[3] = (len & 0xff) as u8;
        assert(h@ =~= spec_header_bytes(*self));
        h
    }
}

/// The flags decode back to the booleans they were built from.
proof fn lemma_flags_roundtrip(h: FrameHeader)
    ensures
        spec_flags(h) < 8,
        spec_flags(h) % 2 == 1 <==> h.first,
        (spec_flags(h) / 2) % 2 == 1 <==> h.last,
        (spec_flags(h) / 4) % 2 == 1 <==> h.ultrasonic,
{
}

/// Parsing the bytes of a header gives back the header, whenever its length
/// fits in a frame.
pub proof fn lemma_header_roundtrip(h: FrameHeader)
    requires
        h.payload_len <= MAX_PAYLOAD,
    ensures
        spec_header_from_bytes(spec_header_bytes(h)) == Ok::<FrameHeader, FrameError>(h),
{
    lemma_flags_roundtrip(h);
    let b = spec_header_bytes(h);
    assert(be16(b[2], b[3]) == h.payload_len);
}

fn be32_to_bytes(x: u32) -> (b: [u8; 4])
    ensures
        b@ == be32_bytes(x),
{
    assert((x >> 24) as u8 == x / 0x100_0000) by (bit_vector);
    assert(((x >> 16) & 0xff) as u8 == (x / 0x1_0000) % 256) by (bit_vector);
    assert(((x >> 8) & 0xff) as u8 == (x / 0x100) % 256) by (bit_vector);
    assert((x & 0xff) as u8 == x % 256) by (bit_vector);
    let mut b = [0u8; 4];
    b[0] = (x >> 24) as u8;
    b[1] = ((x >> 16) & 0xff) as u8;
    b[2] = ((x >> 8) & 0xff) as u8;
    b[3] = (x & 0xff) as u8;
    assert(b@ =~= be32_bytes(x));
    b
}

fn be32_from_bytes(b0: u8, b1: u8, b2: u8, b3: u8) -> (x: u32)
    ensures
        x == be32_value(seq![b0, b1, b2, b3]),
{
    assert(((b0 as u32) << 24) | ((b1 as u32) << 16) | ((b2 as u32) << 8) | (b3 as u32)
        == b0 * 0x100_0000 + b1 * 0x1_0000 + b2 * 0x100 + b3) by (bit_vector);
    ((b0 as u32) << 24) | ((b1 as u32) << 16) | ((b2 as u32) << 8) | (b3 as u32)
}

/// Reading four big-endian bytes back gives the value they were written from.
proof fn lemma_be32_roundtrip(x: u32)
    ensures
        be32_value(be32_bytes(x)) == x,
{
    let b = be32_bytes(x);
    assert(b[0] * 0x100_0000 + b[1] * 0x1_0000 + b[2] * 0x100 + b[3] == x) by (nonlinear_arith)
        requires
            b[0] == x / 0x100_0000,
            b[1] == (x / 0x1_0000) % 256,
            b[2] == (x / 0x100) % 256,
            b[3] == x % 256,
            x < 0x1_0000_0000,
    ;
}

/// Encode a frame into FRAME_LEN bytes.
pub fn encode_frame(header: FrameHeader, payload: &[u8]) -> (res: Result<[u8; FRAME_LEN], FrameError>)
    ensures
        match res {
            Ok(frame) => spec_encode_frame(header, payload@) == Ok::<Seq<u8>, FrameError>(frame@),
            Err(e) => spec_encode_frame(header, payload@) == Err::<Seq<u8>, FrameError>(e),
        },
{
    if payload.len() != header.payload_len as usize {
        return Err(
            FrameError::HeaderPayloadLenMismatch { header_says: header.payload_len, got: payload.len() },
        );
    }
    if payload.len() > MAX_PAYLOAD {
        return Err(FrameError::PayloadTooLong(payload.len() as u16));
    }
    let plen = payload.len();
    let hb = header.to_bytes();

    // Build the 223-byte RS data block: header + payload, right-padded with zeros.
    let mut data = [0u8; RS_DATA];
    let mut i: usize = 0;
    while i < HEADER_LEN
        invariant
            i <= HEADER_LEN,
            hb@ == spec_header_bytes(header),
            forall|k: int| 0 <= k < i ==> data@[k] == hb@[k],
            forall|k: int| i <= k < RS_DATA ==> data@[k] == 0u8,
        decreases HEADER_LEN - i,
    {
        data[i] = hb[i];
        i += 1;
    }
    let mut j: usize = 0;
    while j < plen
        invariant
            plen == payload@.len(),
            plen <= MAX_PAYLOAD,
            j <= plen,
            forall|k: int| 0 <= k < HEADER_LEN ==> data@[k] == hb@[k],
            forall|k: int| 0 <= k < j ==> data@[HEADER_LEN + k] == payload@[k],
            forall|k: int| HEADER_LEN + j <= k < RS_DATA ==> data@[k] == 0u8,
        decreases plen - j,
    {
        data[HEADER_LEN + j] = payload[j];
        j += 1;
    }
    let ghost block = spec_data_block(header, payload@);
    assert(data@ =~= block);

    let codeword = rs_encode(&data);

    // CRC over header + payload (the *application-visible* data, not the padding).
    let crc = crc32(&data[0..HEADER_LEN + plen]);
    assert(data@.subrange(0, (HEADER_LEN + plen) as int) =~= spec_header_bytes(header) + payload@);
    let crc_b = be32_to_bytes(crc);

    let mut out = [0u8; FRAME_LEN];
    let mut k: usize = 0;
    while k < RS_TOTAL
        invariant
            k <= RS_TOTAL,
            codeword@.len() == RS_TOTAL,
            forall|m: int| 0 <= m < k ==> out@[m] == codeword@[m],
        decreases RS_TOTAL - k,
    {
        out[k] = codeword[k];
        k += 1;
    }
    out[RS_TOTAL] = crc_b[0];
    out[RS_TOTAL + 1] = crc_b[1];
    out[RS_TOTAL + 2] = crc_b[2];
    out[RS_TOTAL + 3] = crc_b[3];
    assert(out@ =~= spec_frame(header, payload@));
    Ok(out)
}

/// Decode a frame's bytes back to (header, payload). Returns the longest sensible payload.
pub fn decode_frame(bytes: &[u8]) -> (res: Result<(FrameHeader, Vec<u8>), FrameError>)
    ensures
        match res {
            Ok((h, p)) => spec_decode_frame(bytes@) == Ok::<(FrameHeader, Seq<u8>), FrameError>((h, p@)),
            Err(e) => spec_decode_frame(bytes@) == Err::<(FrameHeader, Seq<u8>), FrameError>(e),
        },
{
    if bytes.len() != FRAME_LEN {
        return Err(FrameError::BadLength(bytes.len()));
    }
    let mut cw = [0u8; RS_TOTAL];
    let mut i: usize = 0;
    while i < RS_TOTAL
        invariant
            i <= RS_TOTAL,
            bytes@.len() == FRAME_LEN,
            forall|k: int| 0 <= k < i ==> cw@[k] == bytes@[k],
        decreases RS_TOTAL - i,
    {
        cw[i] = bytes[i];
        i += 1;
    }
    assert(cw@ =~= bytes@.subrange(0, RS_TOTAL as int));

    let data = match rs_decode(&cw) {
        Ok(d) => d,
        Err(_) => return Err(FrameError::RsUncorrectable),
    };

    let header_bytes: [u8; HEADER_LEN] = [data[0], data[1], data[2], data[3]];
    assert(header_bytes@ =~= data@.subrange(0, HEADER_LEN as int));
    let header = match FrameHeader::from_bytes(&header_bytes) {
        Ok(h) => h,
        Err(e) => return Err(e),
    };
    let payload_end = HEADER_LEN + header.payload_len as usize;
    let payload = slice_to_vec_range(&data, HEADER_LEN, payload_end);

    // Verify CRC
    let expected = be32_from_bytes(
        bytes[RS_TOTAL],
        bytes[RS_TOTAL + 1],
        bytes[RS_TOTAL + 2],
        bytes[RS_TOTAL + 3],
    );
    assert(seq![bytes@[RS_TOTAL as int], bytes@[RS_TOTAL + 1], bytes@[RS_TOTAL + 2], bytes@[RS_TOTAL + 3]]
        =~= bytes@.subrange(RS_TOTAL as int, FRAME_LEN as int));
    let actual = crc32(&data[0..payload_end]);
    if expected != actual {
        return Err(FrameError::CrcMismatch);
    }
    Ok((header, payload))
}

/// The bytes `from..to` of a data block, copied into a vector.
fn slice_to_vec_range(data: &[u8; RS_DATA], from: usize, to: usize) -> (v: Vec<u8>)
    requires
        from <= to <= RS_DATA,
    ensures
        v@ == data@.subrange(from as int, to as int),
{
    let mut v: Vec<u8> = Vec::new();
    let mut i = from;
    while i < to
        invariant
            from <= i <= to <= RS_DATA,
            v@ == data@.subrange(from as int, i as int),
        decreases to - i,
    {
        v.push(data[i]);
        i += 1;
        assert(v@ =~= data@.subrange(from as int, i as int));
    }
    v
}

/// The frame that `encode_frame` builds is a Reed–Solomon codeword followed
/// by the CRC of the header and payload.
pub proof fn lemma_frame_is_codeword(h: FrameHeader, payload: Seq<u8>)
    requires
        payload.len() == h.payload_len,
        payload.len() <= MAX_PAYLOAD,
    ensures
        spec_frame(h, payload).len() == FRAME_LEN,
        is_rs_codeword(spec_frame(h, payload).subrange(0, RS_TOTAL as int)),
        spec_frame(h, payload).subrange(0, RS_DATA as int) == spec_data_block(h, payload),
        spec_frame(h, payload).subrange(RS_TOTAL as int, FRAME_LEN as int) == be32_bytes(
            spec_crc32(spec_header_bytes(h) + payload),
        ),
{
    let data = spec_data_block(h, payload);
    let f = spec_frame(h, payload);
    assert(data.len() == RS_DATA);
    assert(f.subrange(0, RS_DATA as int) =~= data);
    assert(f.subrange(0, RS_TOTAL as int).subrange(0, RS_DATA as int) =~= data);
    assert(f.subrange(0, RS_TOTAL as int).subrange(RS_DATA as int, RS_TOTAL as int) =~= rs_parity(data));
    assert(f.subrange(RS_TOTAL as int, FRAME_LEN as int) =~= be32_bytes(
        spec_crc32(spec_header_bytes(h) + payload),
    ));
}

/// A frame decodes to the header and payload it was encoded from: whatever
/// `encode_frame` accepts, `decode_frame` gives back unchanged.
pub proof fn lemma_frame_roundtrip(h: FrameHeader, payload: Seq<u8>)
    requires
        payload.len() == h.payload_len,
        payload.len() <= MAX_PAYLOAD,
    ensures
        spec_encode_frame(h, payload) matches Ok(frame) && spec_decode_frame(frame) == Ok::<
            (FrameHeader, Seq<u8>),
            FrameError,
        >((h, payload)),
{
    lemma_frame_is_codeword(h, payload);
    lemma_header_roundtrip(h);
    let f = spec_frame(h, payload);
    let data = spec_data_block(h, payload);
    assert(rs_decoded(f.subrange(0, RS_TOTAL as int)) == Some(data)) by {
        assert(f.subrange(0, RS_TOTAL as int).subrange(0, RS_DATA as int) =~= data);
    }
    assert(data.subrange(0, HEADER_LEN as int) =~= spec_header_bytes(h));
    let end = HEADER_LEN + h.payload_len;
    assert(data.subrange(0, end) =~= spec_header_bytes(h) + payload);
    assert(data.subrange(HEADER_LEN as int, end) =~= payload);
    lemma_be32_roundtrip(spec_crc32(spec_header_bytes(h) + payload));
}

/// Decoding reads the 255-byte codeword only through what Reed–Solomon
/// corrects it to: two frames whose codewords correct to the same data, and
/// whose CRC trailers agree, decode alike, however their codeword bytes
/// differ.
pub proof fn lemma_decode_reads_corrected_data(f: Seq<u8>, g: Seq<u8>)
    requires
        f.len() == FRAME_LEN,
        g.len() == FRAME_LEN,
        rs_decoded(f.subrange(0, RS_TOTAL as int)) == rs_decoded(g.subrange(0, RS_TOTAL as int)),
        f.subrange(RS_TOTAL as int, FRAME_LEN as int) == g.subrange(RS_TOTAL as int, FRAME_LEN as int),
    ensures
        spec_decode_frame(f) == spec_decode_frame(g),
{
}

/// A received frame whose codeword Reed–Solomon corrects back to the data
/// block of an encoded frame, and whose CRC trailer arrived intact, decodes
/// to the header and payload that were sent, whichever codeword bytes were
/// damaged on the way: header bytes included.
pub proof fn lemma_corrected_frame_decodes(h: FrameHeader, payload: Seq<u8>, g: Seq<u8>)
    requires
        payload.len() == h.payload_len,
        payload.len() <= MAX_PAYLOAD,
        g.len() == FRAME_LEN,
        rs_decoded(g.subrange(0, RS_TOTAL as int)) == Some(spec_data_block(h, payload)),
        g.subrange(RS_TOTAL as int, FRAME_LEN as int) == spec_frame(h, payload).subrange(
            RS_TOTAL as int,
            FRAME_LEN as int,
        ),
    ensures
        spec_decode_frame(g) == Ok::<(FrameHeader, Seq<u8>), FrameError>((h, payload)),
{
    lemma_frame_roundtrip(h, payload);
    lemma_frame_is_codeword(h, payload);
    let f = spec_frame(h, payload);
    assert(f.subrange(0, RS_TOTAL as int).subrange(0, RS_DATA as int) =~= spec_data_block(h, payload));
    lemma_decode_reads_corrected_data(f, g);
}

/// The human-readable text of a framing error.
pub open spec fn spec_frame_error_text(e: FrameError) -> Seq<char> {
    match e {
        FrameError::PayloadTooLong(n) => "payload too long: "@ + decimal(n as nat) + " > 219"@,
        FrameError::HeaderPayloadLenMismatch { header_says, got } => "header says payload_len="@
            + decimal(header_says as nat) + " but got "@ + decimal(got as nat) + " bytes"@,
        FrameError::BadVersion(b) => "bad version byte: 0x"@ + hex2(b),
        FrameError::ReservedFlagsSet(f) => "reserved flag bits set: 0b"@ + bin8(f),
        FrameError::BadLength(n) => "frame length wrong: got "@ + decimal(n as nat) + ", expected 259"@,
        FrameError::RsUncorrectable => "RS uncorrectable"@,
        FrameError::CrcMismatch => "CRC mismatch"@,
    }
}

impl FrameError {
    /// The error as text, as the program prints it.
    pub fn message(&self) -> (s: String)
        ensures
            s@ == spec_frame_error_text(*self),
    {
        match self {
            FrameError::PayloadTooLong(n) => {
                let mut s = String::from_str("payload too long: ");
                push_decimal(&mut s, *n as u64);
                s.append(" > 219");
                s
            },
            FrameError::HeaderPayloadLenMismatch { header_says, got } => {
                let mut s = String::from_str("header says payload_len=");
                push_decimal(&mut s, *header_says as u64);
                s.append(" but got ");
                push_decimal(&mut s, *got as u64);
                s.append(" bytes");
                s
            },
            FrameError::BadVersion(b) => {
                let mut s = String::from_str("bad version byte: 0x");
                push_hex2(&mut s, *b);
                s
            },
            FrameError::ReservedFlagsSet(f) => {
                let mut s = String::from_str("reserved flag bits set: 0b");
                push_bin8(&mut s, *f);
                s
            },
            FrameError::BadLength(n) => {
                let mut s = String::from_str("frame length wrong: got ");
                push_decimal(&mut s, *n as u64);
                s.append(", expected 259");
                s
            },
            FrameError::RsUncorrectable => String::from_str("RS uncorrectable"),
            FrameError::CrcMismatch => String::from_str("CRC mismatch"),
        }
    }
}

} // verus!
