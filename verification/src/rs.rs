//! Reed–Solomon RS(255,223): protects 223 bytes of data with 32 parity bytes,
//! corrects up to 16 byte errors per codeword.

use vstd::prelude::*;
use reed_solomon::DecoderError;

verus! {

pub const RS_DATA: usize = 223;
pub const RS_PARITY: usize = 32;
pub const RS_TOTAL: usize = 255;

/// The parity bytes that `reed_solomon::Encoder` appends to `data` for a
/// code with `ecc_len` parity bytes.
pub uninterp spec fn spec_rs_parity(ecc_len: nat, data: Seq<u8>) -> Seq<u8>;

/// The data part that `reed_solomon::Decoder::correct` recovers from
/// `codeword` (code with `ecc_len` parity bytes), or `None` when it reports
/// the codeword as uncorrectable.
pub uninterp spec fn spec_rs_correct(ecc_len: nat, codeword: Seq<u8>) -> Option<Seq<u8>>;

#[verifier::external_type_specification]
#[verifier::external_body]
pub struct ExDecoderError(reed_solomon::DecoderError);

/// Calls `reed_solomon::Encoder::new(ecc_len).encode(data)`. The encoder is
/// systematic: the buffer it returns is `data` followed by `ecc_len` parity
/// bytes (it copies `data` into the front of the buffer after computing the
/// remainder). Which parity bytes those are is left to the name
/// `spec_rs_parity`.
#[verifier::external_body]
fn rs_encode_raw(ecc_len: usize, data: &[u8; RS_DATA]) -> (codeword: [u8; RS_TOTAL])
    requires
        ecc_len == RS_PARITY,
    ensures
        codeword@ == data@ + spec_rs_parity(ecc_len as nat, data@),
{
    let buf = reed_solomon::Encoder::new(ecc_len).encode(&data[..]);
    let mut out = [0u8; RS_TOTAL];
    out.copy_from_slice(&buf[..]);
    out
}

/// Calls `reed_solomon::Decoder::new(ecc_len).correct(codeword, None)` and
/// copies out the data part of the corrected buffer. The decoder first
/// computes the syndromes and, when all of them are zero (the codeword is
/// exactly what the encoder produced for its data), returns the message
/// unchanged; so a codeword whose parity is the encoder's parity for its own
/// data part decodes to that data part. How many corrupted bytes the decoder
/// repairs is not claimed here: the result is otherwise only named.
#[verifier::external_body]
fn rs_correct_raw(ecc_len: usize, codeword: &[u8; RS_TOTAL]) -> (res: Result<[u8; RS_DATA], DecoderError>)
    requires
        ecc_len == RS_PARITY,
    ensures
        res matches Ok(data) ==> spec_rs_correct(ecc_len as nat, codeword@) == Some(data@),
        res is Err ==> spec_rs_correct(ecc_len as nat, codeword@) is None,
        res is Err ==> !is_rs_codeword(codeword@),
        res matches Ok(data) ==> (is_rs_codeword(codeword@) ==> data@ == codeword@.subrange(0, RS_DATA as int)),
{
    match reed_solomon::Decoder::new(ecc_len).correct(&codeword[..], None) {
        Ok(buf) => {
            let mut out = [0u8; RS_DATA];
            out.copy_from_slice(buf.data());
            Ok(out)
        },
        Err(e) => Err(e),
    }
}

/// The 32 parity bytes of the RS(255,223) codeword for `data` (the encoder
/// appends exactly `RS_PARITY` of them).
pub open spec fn rs_parity(data: Seq<u8>) -> Seq<u8> {
    Seq::new(RS_PARITY as nat, |i: int| spec_rs_parity(RS_PARITY as nat, data)[i])
}

/// What decoding `codeword` yields: the corrected data, or `None`.
pub open spec fn rs_corrected(codeword: Seq<u8>) -> Option<Seq<u8>> {
    spec_rs_correct(RS_PARITY as nat, codeword)
}

/// Whether `codeword` is exactly the encoder's output for its data part.
pub open spec fn is_rs_codeword(codeword: Seq<u8>) -> bool {
    &&& codeword.len() == RS_TOTAL
    &&& codeword.subrange(RS_DATA as int, RS_TOTAL as int) == rs_parity(
        codeword.subrange(0, RS_DATA as int),
    )
}

/// What decoding `codeword` yields: a codeword that is exactly the encoder's
/// output decodes to its own data part; any other is whatever the decoder
/// corrects it to, or `None`.
pub open spec fn rs_decoded(codeword: Seq<u8>) -> Option<Seq<u8>> {
    if is_rs_codeword(codeword) {
        Some(codeword.subrange(0, RS_DATA as int))
    } else {
        rs_corrected(codeword)
    }
}

#[derive(Debug)]
pub enum RsError {
    Uncorrectable(String),
}

/// Encode exactly RS_DATA bytes of data into a RS_TOTAL-byte codeword
/// (data followed by 32 parity bytes).
pub fn rs_encode(data: &[u8; RS_DATA]) -> (codeword: [u8; RS_TOTAL])
    ensures
        codeword@ == data@ + rs_parity(data@),
        is_rs_codeword(codeword@),
{
    let cw = rs_encode_raw(RS_PARITY, data);
    assert(cw@.len() == RS_TOTAL);
    assert(spec_rs_parity(RS_PARITY as nat, data@).len() == RS_PARITY);
    assert(spec_rs_parity(RS_PARITY as nat, data@) =~= rs_parity(data@));
    assert(cw@.subrange(0, RS_DATA as int) =~= data@);
    assert(cw@.subrange(RS_DATA as int, RS_TOTAL as int) =~= rs_parity(data@));
    cw
}

/// Decode a 255-byte codeword, correcting up to 16 byte errors.
/// Returns the original 223 data bytes.
pub fn rs_decode(codeword: &[u8; RS_TOTAL]) -> (res: Result<[u8; RS_DATA], RsError>)
    ensures
        res matches Ok(data) ==> rs_decoded(codeword@) == Some(data@),
        res is Err ==> rs_decoded(codeword@) is None,
{
    match rs_correct_raw(RS_PARITY, codeword) {
        Ok(data) => Ok(data),
        Err(_) => Err(RsError::Uncorrectable(String::from_str("TooManyErrors"))),
    }
}

} // verus!
