//! The RTP header: the packed info word, the fixed twelve bytes, the CSRC
//! list and the optional header extension, each decoded from network order.

use crate::bytes::{be16, be32, be32_words, read_u16, read_u32};
use crate::error::RtpError;
use vstd::prelude::*;
use vstd::slice::slice_subrange;

verus! {

/// The version field: bits 15 and 14 of the info word.
pub open spec fn info_version(w: u16) -> u8 {
    ((w >> 14u16) & 0b11u16) as u8
}

/// The padding flag: bit 13 of the info word.
pub open spec fn info_has_padding(w: u16) -> bool {
    (w >> 13u16) & 1u16 == 1u16
}

/// The extension flag: bit 12 of the info word.
pub open spec fn info_has_extension(w: u16) -> bool {
    (w >> 12u16) & 1u16 == 1u16
}

/// The CSRC count: bits 11 to 8 of the info word.
pub open spec fn info_csrc_count(w: u16) -> u8 {
    ((w >> 8u16) & 0b1111u16) as u8
}

/// The marker flag: bit 7 of the info word.
pub open spec fn info_has_marker(w: u16) -> bool {
    (w >> 7u16) & 1u16 == 1u16
}

/// The payload type: bits 6 to 0 of the info word.
pub open spec fn info_payload_type(w: u16) -> u8 {
    (w & 0b1111111u16) as u8
}

/// The first 16 bits of an RTP header, read as packed fields.
///
/// Bit layout, most significant first: version (2), padding (1),
/// extension (1), CSRC count (4), marker (1), payload type (7).
#[derive(Clone, Copy, Debug, PartialEq, Eq, Structural)]
pub struct HeaderInfo(pub u16);

impl HeaderInfo {
    /// Gets the version from the header info.
    pub fn version(&self) -> (r: u8)
        ensures
            r == info_version(self.0),
            r < 4,
    {
        let w = self.0;
        proof {
            assert((w >> 14u16) & 0b11u16 == w >> 14u16 && w >> 14u16 < 4) by (bit_vector);
        }
        (w >> 14u16) as u8
    }

    /// Gets the padding flag from the header info.
    pub fn has_padding(&self) -> (r: bool)
        ensures
            r == info_has_padding(self.0),
    {
        ((self.0 >> 13u16) & 0b1u16) == 1
    }

    /// Gets the extension flag from the header info.
    pub fn has_extension(&self) -> (r: bool)
        ensures
            r == info_has_extension(self.0),
    {
        ((self.0 >> 12u16) & 0b1u16) == 1
    }

    /// Gets the number of CSRC identifiers in the header.
    pub fn csrc_count(&self) -> (r: u8)
        ensures
            r == info_csrc_count(self.0),
            r < 16,
    {
        let w = self.0;
        proof {
            assert((w >> 8u16) & 0b1111u16 < 16) by (bit_vector);
        }
        ((w >> 8u16) & 0b1111u16) as u8
    }

    /// Gets the marker flag from the header info.
    pub fn has_marker(&self) -> (r: bool)
        ensures
            r == info_has_marker(self.0),
    {
        ((self.0 >> 7u16) & 0b1u16) == 1
    }

    /// Gets the payload type of the packet.
    pub fn payload_type(&self) -> (r: u8)
        ensures
            r == info_payload_type(self.0),
            r < 128,
    {
        let w = self.0;
        proof {
            assert(w & 0b1111111u16 < 128) by (bit_vector);
        }
        (w & 0b1111111u16) as u8
    }
}

/// Every info word is rebuilt exactly from its six fields: the decoded fields
/// are the word's bits under the documented masks, with nothing lost.
pub proof fn lemma_info_fields_recompose(w: u16)
    ensures
        info_version(w) < 4,
        info_csrc_count(w) < 16,
        info_payload_type(w) < 128,
        w == ((info_version(w) as u16) << 14u16)
            | ((if info_has_padding(w) { 1u16 } else { 0u16 }) << 13u16)
            | ((if info_has_extension(w) { 1u16 } else { 0u16 }) << 12u16)
            | ((info_csrc_count(w) as u16) << 8u16)
            | ((if info_has_marker(w) { 1u16 } else { 0u16 }) << 7u16)
            | (info_payload_type(w) as u16),
{
    assert(((w >> 14u16) & 0b11u16) < 4 && ((w >> 8u16) & 0b1111u16) < 16 && (w & 0b1111111u16) < 128)
        by (bit_vector);
    assert(w == (((w >> 14u16) & 0b11u16) << 14u16)
        | (((w >> 13u16) & 1u16) << 13u16)
        | (((w >> 12u16) & 1u16) << 12u16)
        | (((w >> 8u16) & 0b1111u16) << 8u16)
        | (((w >> 7u16) & 1u16) << 7u16)
        | (w & 0b1111111u16)) by (bit_vector);
    assert((w >> 13u16) & 1u16 == if (w >> 13u16) & 1u16 == 1u16 { 1u16 } else { 0u16 }) by (bit_vector);
    assert((w >> 12u16) & 1u16 == if (w >> 12u16) & 1u16 == 1u16 { 1u16 } else { 0u16 }) by (bit_vector);
    assert((w >> 7u16) & 1u16 == if (w >> 7u16) & 1u16 == 1u16 { 1u16 } else { 0u16 }) by (bit_vector);
}

/// What a header extension holds: its id, its declared length in 32-bit
/// words, and those words in buffer order.
pub struct HeaderExtensionView {
    pub extension_id: u16,
    pub extension_header_length: u16,
    pub extension: Seq<u32>,
}

/// What a header holds, with the info word kept as it was read.
pub struct HeaderView {
    pub info: u16,
    pub sequence: u16,
    pub timestamp: u32,
    pub ssrc_identifier: u32,
    pub csrc_identifiers: Seq<u32>,
    pub extension: Option<HeaderExtensionView>,
}

impl HeaderExtensionView {
    /// The data holds exactly the declared number of words.
    pub open spec fn well_formed(self) -> bool {
        self.extension.len() == self.extension_header_length as nat
    }
}

impl HeaderView {
    /// The CSRC list has the length that the info word declares, and an
    /// extension is present exactly when the info word's flag is set.
    pub open spec fn well_formed(self) -> bool {
        &&& self.csrc_identifiers.len() == info_csrc_count(self.info) as nat
        &&& self.extension.is_some() == info_has_extension(self.info)
        &&& (self.extension matches Some(x) ==> x.well_formed())
    }
}

/// The outcome of decoding `b` as a header extension: the id and the word
/// count, then that many big-endian words.
pub open spec fn spec_parse_extension(b: Seq<u8>) -> Result<HeaderExtensionView, RtpError> {
    if b.len() < 4 {
        Err(RtpError::ExtensionHeaderMissing)
    } else if b.len() - 4 < 4 * be16(b, 2) {
        Err(RtpError::InsufficientExtensionData)
    } else {
        Ok(
            HeaderExtensionView {
                extension_id: be16(b, 0) as u16,
                extension_header_length: be16(b, 2) as u16,
                extension: be32_words(b, 4, be16(b, 2) as nat),
            },
        )
    }
}

/// The number of bytes that the fixed header and the CSRC list of a header
/// with info word `w` take.
pub open spec fn csrc_end(w: u16) -> int {
    12 + 4 * info_csrc_count(w)
}

/// The outcome of decoding `b` as an RTP header: the fixed twelve bytes, the
/// CSRC list that the info word declares, then an extension if its flag is set.
/// Bytes after these are payload and play no part.
pub open spec fn spec_parse_header(b: Seq<u8>) -> Result<HeaderView, RtpError> {
    if b.len() < 12 {
        Err(RtpError::HeaderTooSmall)
    } else {
        let w = be16(b, 0) as u16;
        if b.len() < csrc_end(w) {
            Err(RtpError::InsufficientCsrcData)
        } else {
            let ext: Result<Option<HeaderExtensionView>, RtpError> = if info_has_extension(w) {
                match spec_parse_extension(b.subrange(csrc_end(w), b.len() as int)) {
                    Ok(x) => Ok(Some(x)),
                    Err(e) => Err(e),
                }
            } else {
                Ok(None)
            };
            match ext {
                Err(e) => Err(e),
                Ok(extension) => Ok(
                    HeaderView {
                        info: w,
                        sequence: be16(b, 2) as u16,
                        timestamp: be32(b, 4) as u32,
                        ssrc_identifier: be32(b, 8) as u32,
                        csrc_identifiers: be32_words(b, 12, info_csrc_count(w) as nat),
                        extension,
                    },
                ),
            }
        }
    }
}

/// The contributing source identifiers of a header, in buffer order.
#[derive(Debug)]
pub struct CSRCIdentifiers {
    identifiers: Vec<u32>,
}

impl View for CSRCIdentifiers {
    type V = Seq<u32>;

    closed spec fn view(&self) -> Seq<u32> {
        self.identifiers@
    }
}

/// A header extension: the extension id, the extension length, and the
/// 32-bit words of extension data.
#[derive(Debug)]
pub struct HeaderExtension {
    extension_id: u16,
    ehl: u16,
    extension: Vec<u32>,
}

impl View for HeaderExtension {
    type V = HeaderExtensionView;

    closed spec fn view(&self) -> HeaderExtensionView {
        HeaderExtensionView {
            extension_id: self.extension_id,
            extension_header_length: self.ehl,
            extension: self.extension@,
        }
    }
}

/// Reads `n` consecutive big-endian 32-bit words of `buf` from `start` on.
fn read_words(buf: &[u8], start: usize, n: usize) -> (r: Vec<u32>)
    requires
        start + 4 * n <= buf@.len(),
    ensures
        r@ == be32_words(buf@, start as int, n as nat),
{
    let len = buf.len();
    let mut words: Vec<u32> = Vec::with_capacity(n);
    let mut i: usize = 0;
    while i < n
        invariant
            i <= n,
            len == buf@.len(),
            start + 4 * n <= buf@.len(),
            words@ == be32_words(buf@, start as int, i as nat),
        decreases n - i,
    {
        assert(4 * i + 4 <= 4 * n) by (nonlinear_arith)
            requires
                i < n,
        ;
        let at: usize = start + 4 * i;
        let word = read_u32(slice_subrange(buf, at, len));
        words.push(word);
        i = i + 1;
        assert(words@ =~= be32_words(buf@, start as int, i as nat));
    }
    words
}

impl HeaderExtension {
    /// Decodes a header extension from the bytes that follow the CSRC list.
    pub fn from_buf(extension_buf: &[u8]) -> (r: Result<HeaderExtension, RtpError>)
        ensures
            match r {
                Ok(x) => spec_parse_extension(extension_buf@) == Ok::<HeaderExtensionView, RtpError>(x@),
                Err(e) => spec_parse_extension(extension_buf@) == Err::<HeaderExtensionView, RtpError>(e),
            },
    {
        let len = extension_buf.len();
        if len < 4 {
            return Err(RtpError::ExtensionHeaderMissing);
        }
        let id = read_u16(extension_buf);
        let ehl = read_u16(slice_subrange(extension_buf, 2, len));
        if len - 4 < ehl as usize * 4 {
            return Err(RtpError::InsufficientExtensionData);
        }
        let extension = read_words(extension_buf, 4, ehl as usize);
        Ok(HeaderExtension { extension_id: id, ehl, extension })
    }

    /// Returns the extension id.
    pub fn extension_id(&self) -> (r: u16)
        ensures
            r == self@.extension_id,
    {
        self.extension_id
    }

    /// Returns the extension header length: the number of 32-bit words of
    /// extension data.
    pub fn extension_header_length(&self) -> (r: u16)
        ensures
            r == self@.extension_header_length,
    {
        self.ehl
    }

    /// Returns the words of extension data.
    pub fn extension(&self) -> (r: &Vec<u32>)
        ensures
            r@ == self@.extension,
    {
        &self.extension
    }
}

/// A decoded RTP header, detached from the buffer that it was read from.
#[derive(Debug)]
pub struct Header {
    info: HeaderInfo,
    sequence: u16,
    timestamp: u32,
    ssrc_identifier: u32,
    csrc_identifiers: CSRCIdentifiers,
    extension: Option<HeaderExtension>,
}

impl View for Header {
    type V = HeaderView;

    closed spec fn view(&self) -> HeaderView {
        HeaderView {
            info: self.info.0,
            sequence: self.sequence,
            timestamp: self.timestamp,
            ssrc_identifier: self.ssrc_identifier,
            csrc_identifiers: self.csrc_identifiers@,
            extension: match self.extension {
                Some(x) => Some(x@),
                None => None,
            },
        }
    }
}

impl Header {
    /// Decodes a header from the start of a network-order buffer. Bytes after
    /// the header, the payload, are not read.
    ///
    /// Fails when the buffer is shorter than the fixed header, when it holds
    /// fewer CSRC identifiers than the info word declares, or when the
    /// extension that the info word announces is missing or cut short.
    pub fn from_buf(header_buf: &[u8]) -> (r: Result<Header, RtpError>)
        ensures
            match r {
                Ok(h) => spec_parse_header(header_buf@) == Ok::<HeaderView, RtpError>(h@),
                Err(e) => spec_parse_header(header_buf@) == Err::<HeaderView, RtpError>(e),
            },
    {
        let len = header_buf.len();
        if len < 12 {
            return Err(RtpError::HeaderTooSmall);
        }
        let info = HeaderInfo(read_u16(header_buf));
        let sequence = read_u16(slice_subrange(header_buf, 2, len));
        let timestamp = read_u32(slice_subrange(header_buf, 4, len));
        let ssrc_identifier = read_u32(slice_subrange(header_buf, 8, len));

        let csrc_count = info.csrc_count() as usize;
        if len - 12 < csrc_count * 4 {
            return Err(RtpError::InsufficientCsrcData);
        }
        let identifiers = read_words(header_buf, 12, csrc_count);
        let csrc_identifiers = CSRCIdentifiers { identifiers };

        let end: usize = 12 + csrc_count * 4;
        let extension = if info.has_extension() {
            match HeaderExtension::from_buf(slice_subrange(header_buf, end, len)) {
                Ok(x) => Some(x),
                Err(e) => {
                    return Err(e);
                },
            }
        } else {
            None
        };

        Ok(Header { info, sequence, timestamp, ssrc_identifier, csrc_identifiers, extension })
    }

    /// Returns the header info.
    pub fn info(&self) -> (r: &HeaderInfo)
        ensures
            r.0 == self@.info,
    {
        &self.info
    }

    /// Returns the sequence number.
    pub fn sequence(&self) -> (r: u16)
        ensures
            r == self@.sequence,
    {
        self.sequence
    }

    /// Returns the timestamp.
    pub fn timestamp(&self) -> (r: u32)
        ensures
            r == self@.timestamp,
    {
        self.timestamp
    }

    /// Returns the SSRC identifier.
    pub fn ssrc_identifier(&self) -> (r: u32)
        ensures
            r == self@.ssrc_identifier,
    {
        self.ssrc_identifier
    }

    /// Returns the CSRC identifiers, in buffer order.
    pub fn csrc_identifiers(&self) -> (r: &Vec<u32>)
        ensures
            r@ == self@.csrc_identifiers,
    {
        &self.csrc_identifiers.identifiers
    }

    /// Returns the header extension, present exactly when the info word's
    /// extension flag is set.
    pub fn extension(&self) -> (r: &Option<HeaderExtension>)
        ensures
            match r {
                Some(x) => self@.extension == Some(x@),
                None => self@.extension is None,
            },
    {
        &self.extension
    }
}

/// A buffer shorter than the fixed twelve bytes is always refused with
/// `HeaderTooSmall`, and no header comes of it.
pub proof fn lemma_short_buffer_too_small(b: Seq<u8>)
    requires
        b.len() < 12,
    ensures
        spec_parse_header(b) == Err::<HeaderView, RtpError>(RtpError::HeaderTooSmall),
{
}

/// A buffer that holds the fixed header but fewer than four bytes for each
/// declared CSRC identifier after it is refused with `InsufficientCsrcData`.
pub proof fn lemma_missing_csrc_refused(b: Seq<u8>)
    requires
        b.len() >= 12,
        b.len() - 12 < 4 * info_csrc_count(be16(b, 0) as u16),
    ensures
        spec_parse_header(b) == Err::<HeaderView, RtpError>(RtpError::InsufficientCsrcData),
{
}

/// A buffer whose info word sets the extension flag, and that holds the fixed
/// header and the CSRC list but fewer than four bytes after them, is refused
/// with `ExtensionHeaderMissing`.
pub proof fn lemma_missing_extension_header_refused(b: Seq<u8>)
    requires
        b.len() >= 12,
        b.len() >= csrc_end(be16(b, 0) as u16),
        info_has_extension(be16(b, 0) as u16),
        b.len() - csrc_end(be16(b, 0) as u16) < 4,
    ensures
        spec_parse_header(b) == Err::<HeaderView, RtpError>(RtpError::ExtensionHeaderMissing),
{
}

/// A buffer whose info word sets the extension flag, that holds the extension's
/// id and length, but fewer than four bytes for each declared extension word
/// after them, is refused with `InsufficientExtensionData`.
pub proof fn lemma_short_extension_data_refused(b: Seq<u8>)
    requires
        b.len() >= 12,
        info_has_extension(be16(b, 0) as u16),
        b.len() >= csrc_end(be16(b, 0) as u16) + 4,
        b.len() - csrc_end(be16(b, 0) as u16) - 4 < 4 * be16(b, csrc_end(be16(b, 0) as u16) + 2),
    ensures
        spec_parse_header(b) == Err::<HeaderView, RtpError>(RtpError::InsufficientExtensionData),
{
    let rest = b.subrange(csrc_end(be16(b, 0) as u16), b.len() as int);
    assert(be16(rest, 2) == be16(b, csrc_end(be16(b, 0) as u16) + 2));
}

/// Every header that decoding yields keeps the header's invariant: as many
/// CSRC identifiers as its info word declares, an extension exactly when the
/// flag is set, and as many extension words as the extension declares.
pub proof fn lemma_parsed_header_well_formed(b: Seq<u8>)
    requires
        spec_parse_header(b) is Ok,
    ensures
        spec_parse_header(b)->Ok_0.well_formed(),
{
}

} // verus!
