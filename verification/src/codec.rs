//! TCP frame codec: little-endian length prefix, and the optional zlib
//! compression envelope tagged `ABG:`.
//!
//! Outbound payloads whose first byte is `O` or `T`, or whose size exceeds
//! 400 bytes, travel deflated inside the envelope. Inbound payloads that
//! carry the tag are inflated before dispatch, subject to a size cap.

use vstd::prelude::*;
use vstd::bytes::{spec_u32_to_le_bytes, u32_from_le_bytes, u32_to_le_bytes};

verus! {

/// Failures of the codec.
#[derive(Clone, Copy, Debug, PartialEq, Eq, Structural)]
pub enum CodecError {
    /// The payload inflated to more bytes than the cap allows.
    TooLarge,
    /// The zlib stream could not be produced or read back.
    Deflate,
    /// A compressed payload would not fit the frame length field.
    Oversize,
}

/// What the zlib deflate of a byte string is. The bytes themselves are
/// pinned only by the compressor; contracts use this name for them.
pub uninterp spec fn deflate_of(data: Seq<u8>) -> Seq<u8>;

/// What the zlib inflate of a byte string is: `None` when the bytes are
/// not one complete zlib stream.
pub uninterp spec fn inflate_of(data: Seq<u8>) -> Option<Seq<u8>>;

/// Relies on flate2's `write::ZlibEncoder`: a complete zlib stream that is
/// a function of the input bytes alone, never empty, and lossless (zlib
/// inflation returns exactly the input).
#[verifier::external_body]
fn deflate_bytes(data: &[u8]) -> (r: Result<Vec<u8>, CodecError>)
    ensures
        r matches Ok(c) ==> c@ == deflate_of(data@) && c@.len() > 0 && inflate_of(
            deflate_of(data@),
        ) == Some(data@),
{
    let mut enc = flate2::write::ZlibEncoder::new(Vec::new(), flate2::Compression::best());
    if std::io::Write::write_all(&mut enc, data).is_err() {
        return Err(CodecError::Deflate);
    }
    enc.finish().map_err(|_| CodecError::Deflate)
}

/// Relies on flate2's `write::ZlibDecoder`: deterministic in the input
/// bytes; returns the inflation of what the decoder accepts — a complete
/// zlib stream, or a valid truncated prefix inflated as far as it goes —
/// and refuses corrupt streams and trailing bytes.
#[verifier::external_body]
fn inflate_bytes(data: &[u8]) -> (r: Result<Vec<u8>, CodecError>)
    ensures
        r matches Ok(d) ==> inflate_of(data@) == Some(d@),
        r matches Err(e) ==> inflate_of(data@) is None && e == CodecError::Deflate,
{
    let mut dec = flate2::write::ZlibDecoder::new(Vec::new());
    if std::io::Write::write_all(&mut dec, data).is_err() {
        return Err(CodecError::Deflate);
    }
    dec.finish().map_err(|_| CodecError::Deflate)
}

/// The four tag bytes `ABG:` that announce a compressed payload.
pub open spec fn abg_tag() -> Seq<u8> {
    seq![65u8, 66u8, 71u8, 58u8]
}

/// Does this payload carry the compression envelope?
pub open spec fn has_abg_tag(s: Seq<u8>) -> bool {
    s.len() >= 4 && s.take(4) == abg_tag()
}

/// The enveloped form of a payload: tag, then deflated bytes.
pub open spec fn spec_compress(p: Seq<u8>) -> Seq<u8> {
    abg_tag() + deflate_of(p)
}

/// What decoding a possibly-enveloped payload yields: untagged payloads
/// pass through unchanged; tagged ones are inflated and held to `cap`.
pub open spec fn spec_decompress(data: Seq<u8>, cap: nat) -> Result<Seq<u8>, CodecError> {
    if has_abg_tag(data) {
        match inflate_of(data.skip(4)) {
            Some(d) => if d.len() <= cap {
                Ok(d)
            } else {
                Err(CodecError::TooLarge)
            },
            None => Err(CodecError::Deflate),
        }
    } else {
        Ok(data)
    }
}

/// Wrap a payload in the compression envelope.
///
/// On success the result is the `ABG:` tag followed by a nonempty valid
/// zlib stream, and decoding it under any sufficient cap returns the
/// payload unchanged.
pub fn compress_envelope(data: &[u8]) -> (r: Result<Vec<u8>, CodecError>)
    ensures
        r matches Ok(c) ==> {
            &&& c@ == spec_compress(data@)
            &&& c@.len() > 4
            &&& inflate_of(c@.skip(4)) == Some(data@)
            &&& forall|cap: nat|
                data@.len() <= cap ==> spec_decompress(c@, cap) == Ok::<Seq<u8>, CodecError>(data@)
        },
{
    let deflated = deflate_bytes(data)?;
    let mut out: Vec<u8> = Vec::new();
    out.push(65);
    out.push(66);
    out.push(71);
    out.push(58);
    assert(out@ =~= abg_tag());
    out.extend_from_slice(deflated.as_slice());
    assert(out@ =~= abg_tag() + deflate_of(data@));
    proof {
        assert(out@.take(4) =~= abg_tag());
        assert(out@.skip(4) =~= deflate_of(data@));
    }
    Ok(out)
}

/// Undo the compression envelope, if present, refusing payloads that
/// inflate past `cap` bytes.
pub fn decompress_envelope(data: &[u8], cap: usize) -> (r: Result<Vec<u8>, CodecError>)
    ensures
        match r {
            Ok(d) => spec_decompress(data@, cap as nat) == Ok::<Seq<u8>, CodecError>(d@),
            Err(e) => spec_decompress(data@, cap as nat) == Err::<Seq<u8>, CodecError>(e),
        },
{
    let tag: [u8; 4] = [65, 66, 71, 58];
    proof {
        assert(tag@ =~= abg_tag());
    }
    if data.len() >= 4 && crate::wire::starts_with(data, tag.as_slice()) {
        let suffix = crate::wire::copy_range(data, 4, data.len());
        assert(suffix@ =~= data@.skip(4));
        let inflated = inflate_bytes(suffix.as_slice())?;
        if inflated.len() > cap {
            return Err(CodecError::TooLarge);
        }
        Ok(inflated)
    } else {
        let copy = crate::wire::copy_range(data, 0, data.len());
        assert(copy@ =~= data@);
        Ok(copy)
    }
}

/// The wire framing: a little-endian 32-bit length, then the payload.
pub open spec fn frame_bytes(payload: Seq<u8>) -> Seq<u8> {
    spec_u32_to_le_bytes(payload.len() as u32) + payload
}

/// Frame a payload for the wire.
pub fn encode_frame(payload: &[u8]) -> (r: Vec<u8>)
    requires
        payload@.len() <= u32::MAX,
    ensures
        r@ == frame_bytes(payload@),
{
    let mut r = u32_to_le_bytes(payload.len() as u32);
    r.extend_from_slice(payload);
    assert(r@ =~= frame_bytes(payload@));
    r
}

/// Read a frame length out of its four header bytes.
pub fn frame_len(header: &[u8]) -> (r: u32)
    requires
        header@.len() == 4,
    ensures
        spec_u32_to_le_bytes(r) == header@,
{
    proof {
        vstd::bytes::lemma_auto_spec_u32_to_from_le_bytes();
    }
    u32_from_le_bytes(header)
}

/// Which outbound payloads must be compressed: vehicle (`O`) and
/// transform (`T`) traffic, and anything over 400 bytes.
pub open spec fn should_compress(p: Seq<u8>) -> bool {
    (p.len() > 0 && (p[0] == 79 || p[0] == 84)) || p.len() > 400
}

/// The payload as it travels inside a TCP frame: enveloped when
/// `should_compress` says so, untouched otherwise.
pub open spec fn spec_wire_payload(p: Seq<u8>) -> Seq<u8> {
    if should_compress(p) {
        spec_compress(p)
    } else {
        p
    }
}

/// Encode one outbound payload as its full TCP wire bytes: length prefix
/// plus the (possibly enveloped) payload.
pub fn encode_for_wire(payload: &[u8]) -> (r: Result<Vec<u8>, CodecError>)
    requires
        payload@.len() <= crate::DEFAULT_FRAME_CAP,
    ensures
        r matches Ok(w) ==> w@ == frame_bytes(spec_wire_payload(payload@)),
{
    let compress = if payload.len() > 0 {
        payload[0] == 79 || payload[0] == 84 || payload.len() > 400
    } else {
        false
    };
    if compress {
        let enveloped = compress_envelope(payload)?;
        if enveloped.len() > u32::MAX as usize {
            return Err(CodecError::Oversize);
        }
        Ok(encode_frame(enveloped.as_slice()))
    } else {
        Ok(encode_frame(payload))
    }
}

} // verus!
