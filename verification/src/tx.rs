//! The transmitter's byte side: a payload becomes a run of frames, each
//! preceded on the air by the chirp and carried, together with the sync word,
//! as one block of bytes.

use vstd::prelude::*;

use crate::digest::{sha256, sha256_digest};
use crate::frame::{encode_frame, spec_encode_frame, spec_frame, FrameHeader, FRAME_LEN, MAX_PAYLOAD};
use crate::phy::FskPhy;
use crate::preamble::SYNC_WORD;

verus! {

/// The sync word as bytes.
pub open spec fn sync_word() -> Seq<u8> {
    seq![0x7Eu8, 0x81u8]
}

/// What goes over the air for a payload: the payload followed by its
/// SHA-256, so the receiver can check the whole stream.
pub open spec fn transmission(payload: Seq<u8>) -> Seq<u8> {
    payload + sha256_digest(payload)
}

/// Number of frames that carry `len` bytes, `MAX_PAYLOAD` per frame.
pub open spec fn n_frames(len: nat) -> nat {
    ((len + MAX_PAYLOAD - 1) / MAX_PAYLOAD as int) as nat
}

/// The bytes frame `i` carries.
pub open spec fn frame_chunk(full: Seq<u8>, i: int) -> Seq<u8> {
    let start = MAX_PAYLOAD * i;
    let end = if MAX_PAYLOAD * (i + 1) <= full.len() { MAX_PAYLOAD * (i + 1) } else { full.len() as int };
    full.subrange(start, end)
}

/// The header of frame `i` of `n`.
pub open spec fn frame_header_for(i: int, n: int, ultrasonic: bool, len: nat) -> FrameHeader {
    FrameHeader { first: i == 0, last: i == n - 1, ultrasonic, payload_len: len as u16 }
}

/// The block of frame `i` of the stream `full`: the sync word and the frame.
pub open spec fn frame_block(full: Seq<u8>, i: int, ultrasonic: bool) -> Seq<u8> {
    let chunk = frame_chunk(full, i);
    sync_word() + spec_frame(frame_header_for(i, n_frames(full.len()) as int, ultrasonic, chunk.len()), chunk)
}

pub struct Transmitter {
    phy: FskPhy,
    ultrasonic: bool,
}

impl Transmitter {
    pub closed spec fn spec_phy(self) -> FskPhy {
        self.phy
    }

    /// Whether the frames announce the ultrasonic profile.
    pub closed spec fn spec_ultrasonic(self) -> bool {
        self.ultrasonic
    }

    pub fn new(phy: FskPhy, ultrasonic: bool) -> (t: Self)
        ensures
            t.spec_phy() == phy,
            t.spec_ultrasonic() == ultrasonic,
    {
        Self { phy, ultrasonic }
    }

    /// The PHY this transmitter modulates with. A caller that wants to report
    /// what is actually going on the wire — symbol rate, tone frequencies —
    /// should ask the PHY rather than repeat what it passed in.
    pub fn phy(&self) -> (p: &FskPhy)
        ensures
            *p == self.spec_phy(),
    {
        &self.phy
    }

    /// The blocks of bytes to modulate for `payload`, in order: each is the
    /// sync word followed by one encoded frame, and each goes on the air after
    /// its own chirp. The payload and its SHA-256 are split into frames of
    /// `MAX_PAYLOAD` bytes; the first frame is flagged first, the last last.
    /// The payload and its digest must fit in one vector.
    pub fn frame_blocks(&self, payload: &[u8]) -> (blocks: Vec<Vec<u8>>)
        requires
            payload.len() <= usize::MAX - 32,
        ensures
            blocks@.len() == n_frames(transmission(payload@).len()),
            forall|i: int|
                0 <= i < blocks@.len() ==> #[trigger] blocks@[i]@ == frame_block(
                    transmission(payload@),
                    i,
                    self.spec_ultrasonic(),
                ),
    {
        // Append SHA-256 to last frame's data.
        let sha = sha256(payload);
        let mut full: Vec<u8> = Vec::new();
        append_bytes(&mut full, payload);
        append_bytes(&mut full, &sha);
        let ghost fullv = transmission(payload@);
        assert(full@ =~= fullv);

        let len = full.len();
        let n = len / MAX_PAYLOAD + if len % MAX_PAYLOAD == 0 {
            0
        } else {
            1
        };
        assert(n == n_frames(len as nat));
        let mut blocks: Vec<Vec<u8>> = Vec::new();
        let mut i: usize = 0;
        while i < n
            invariant
                len == full@.len() == fullv.len(),
                full@ == fullv,
                n == n_frames(len as nat),
                i <= n,
                blocks@.len() == i,
                forall|k: int| 0 <= k < i ==> #[trigger] blocks@[k]@ == frame_block(fullv, k, self.spec_ultrasonic()),
            decreases n - i,
        {
            let start = i * MAX_PAYLOAD;
            let end = if len - start >= MAX_PAYLOAD { start + MAX_PAYLOAD } else { len };
            let chunk = &full.as_slice()[start..end];
            let ghost c = frame_chunk(fullv, i as int);
            assert(chunk@ =~= c);
            let header = FrameHeader {
                first: i == 0,
                last: i == n - 1,
                ultrasonic: self.ultrasonic,
                payload_len: chunk.len() as u16,
            };
            assert(header == frame_header_for(i as int, n as int, self.spec_ultrasonic(), c.len()));
            let frame = match encode_frame(header, chunk) {
                Ok(f) => f,
                Err(_) => {
                    proof {
                        assert(spec_encode_frame(header, c) is Ok);
                    }
                    [0u8; FRAME_LEN]
                },
            };
            // The sync word and the frame are modulated as ONE byte buffer:
            // the bit packing runs across byte boundaries, so modulating them
            // apart would put padding bits between them.
            let mut block: Vec<u8> = Vec::with_capacity(SYNC_WORD.len() + FRAME_LEN);
            append_bytes(&mut block, &SYNC_WORD);
            append_bytes(&mut block, &frame);
            assert(SYNC_WORD@ =~= sync_word());
            assert(block@ =~= frame_block(fullv, i as int, self.spec_ultrasonic()));
            blocks.push(block);
            i += 1;
        }
        blocks
    }
}

/// Appends the bytes of `src` to `dst`.
pub fn append_bytes(dst: &mut Vec<u8>, src: &[u8])
    ensures
        final(dst)@ == old(dst)@ + src@,
{
    let mut i: usize = 0;
    while i < src.len()
        invariant
            i <= src@.len(),
            dst@ == old(dst)@ + src@.subrange(0, i as int),
        decreases src@.len() - i,
    {
        dst.push(src[i]);
        i += 1;
        assert(dst@ =~= old(dst)@ + src@.subrange(0, i as int));
    }
    assert(src@.subrange(0, src@.len() as int) =~= src@);
}

} // verus!
