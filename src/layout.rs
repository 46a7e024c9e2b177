//! The wire layout of a header, written out byte by byte, and the proof that
//! decoding reads back every field of a header laid out this way.

use crate::bytes::{be16, be32, be32_words};
use crate::error::RtpError;
use crate::header::{
    csrc_end, spec_parse_extension, spec_parse_header, HeaderExtensionView, HeaderView,
};
use vstd::prelude::*;

verus! {

/// The two bytes of `v`, most significant first.
pub open spec fn be16_bytes(v: u16) -> Seq<u8> {
    seq![(v / 0x100) as u8, (v % 0x100) as u8]
}

/// The four bytes of `v`, most significant first.
pub open spec fn be32_bytes(v: u32) -> Seq<u8> {
    seq![
        (v / 0x1000000) as u8,
        ((v / 0x10000) % 0x100) as u8,
        ((v / 0x100) % 0x100) as u8,
        (v % 0x100) as u8,
    ]
}

/// The words of `ws` one after another, each as four big-endian bytes.
pub open spec fn words_bytes(ws: Seq<u32>) -> Seq<u8> {
    Seq::new(4 * ws.len(), |i: int| be32_bytes(ws[i / 4])[i % 4])
}

/// A header extension as it stands on the wire.
pub open spec fn extension_bytes(x: HeaderExtensionView) -> Seq<u8> {
    be16_bytes(x.extension_id) + be16_bytes(x.extension_header_length) + words_bytes(x.extension)
}

/// The fixed twelve bytes of a header.
pub open spec fn fixed_bytes(h: HeaderView) -> Seq<u8> {
    be16_bytes(h.info) + be16_bytes(h.sequence) + be32_bytes(h.timestamp) + be32_bytes(
        h.ssrc_identifier,
    )
}

/// A header as it stands on the wire: the fixed part, the CSRC list, and the
/// extension if there is one.
pub open spec fn header_bytes(h: HeaderView) -> Seq<u8> {
    fixed_bytes(h) + words_bytes(h.csrc_identifiers) + match h.extension {
        Some(x) => extension_bytes(x),
        None => Seq::empty(),
    }
}

proof fn lemma_be16_bytes(v: u16)
    ensures
        be16(be16_bytes(v), 0) == v,
{
}

proof fn lemma_be32_bytes(v: u32)
    ensures
        be32(be32_bytes(v), 0) == v,
{
}

/// Words laid out with `words_bytes` at `start` of `s` are read back in order.
proof fn lemma_words_read_back(s: Seq<u8>, start: int, ws: Seq<u32>)
    requires
        0 <= start,
        start + 4 * ws.len() <= s.len(),
        forall|i: int| 0 <= i < 4 * ws.len() ==> s[start + i] == #[trigger] words_bytes(ws)[i],
    ensures
        be32_words(s, start, ws.len()) == ws,
{
    assert forall|k: int| 0 <= k < ws.len() implies be32(s, start + 4 * k) == ws[k] by {
        assert((4 * k) / 4 == k && (4 * k) % 4 == 0 && (4 * k + 1) / 4 == k && (4 * k + 1) % 4 == 1
            && (4 * k + 2) / 4 == k && (4 * k + 2) % 4 == 2 && (4 * k + 3) / 4 == k && (4 * k + 3)
            % 4 == 3) by (nonlinear_arith)
            requires
                0 <= k,
        ;
        assert(4 * k + 3 < 4 * ws.len()) by (nonlinear_arith)
            requires
                0 <= k < ws.len(),
        ;
        let wb = words_bytes(ws);
        assert(s[start + 4 * k] == wb[4 * k]);
        assert(s[start + 4 * k + 1] == wb[4 * k + 1]);
        assert(s[start + 4 * k + 2] == wb[4 * k + 2]);
        assert(s[start + 4 * k + 3] == wb[4 * k + 3]);
        lemma_be32_bytes(ws[k]);
    }
    assert(be32_words(s, start, ws.len()) =~= ws);
}

/// Decoding an extension laid out on the wire, followed by any bytes, gives
/// back the extension.
pub proof fn lemma_extension_round_trip(x: HeaderExtensionView, rest: Seq<u8>)
    requires
        x.well_formed(),
    ensures
        spec_parse_extension(extension_bytes(x) + rest) == Ok::<HeaderExtensionView, RtpError>(x),
{
    let b = extension_bytes(x) + rest;
    lemma_be16_bytes(x.extension_id);
    lemma_be16_bytes(x.extension_header_length);
    assert(be16(b, 0) == be16(be16_bytes(x.extension_id), 0));
    assert(be16(b, 2) == be16(be16_bytes(x.extension_header_length), 0));
    lemma_words_read_back(b, 4, x.extension);
}

/// Decoding a well-formed header laid out on the wire, followed by any payload,
/// gives back every field of the header: the info word, sequence number,
/// timestamp, SSRC, the CSRC identifiers in order and the extension with its
/// words in order.
pub proof fn lemma_header_round_trip(h: HeaderView, payload: Seq<u8>)
    requires
        h.well_formed(),
    ensures
        spec_parse_header(header_bytes(h) + payload) == Ok::<HeaderView, RtpError>(h),
{
    let b = header_bytes(h) + payload;
    let f = fixed_bytes(h);
    let cs = words_bytes(h.csrc_identifiers);
    assert(f.len() == 12);
    assert forall|i: int| 0 <= i < 12 implies b[i] == f[i] by {}
    lemma_be16_bytes(h.info);
    lemma_be16_bytes(h.sequence);
    lemma_be32_bytes(h.timestamp);
    lemma_be32_bytes(h.ssrc_identifier);
    assert(be16(b, 0) == be16(be16_bytes(h.info), 0));
    assert(be16(b, 2) == be16(be16_bytes(h.sequence), 0));
    assert(be32(b, 4) == be32(be32_bytes(h.timestamp), 0));
    assert(be32(b, 8) == be32(be32_bytes(h.ssrc_identifier), 0));
    let w = be16(b, 0) as u16;
    assert(w == h.info);
    assert forall|i: int| 0 <= i < 4 * h.csrc_identifiers.len() implies b[12 + i]
        == #[trigger] cs[i] by {}
    lemma_words_read_back(b, 12, h.csrc_identifiers);
    assert(csrc_end(w) == 12 + cs.len());
    match h.extension {
        Some(x) => {
            let e = extension_bytes(x);
            assert(b.subrange(csrc_end(w), b.len() as int) =~= e + payload);
            lemma_extension_round_trip(x, payload);
        },
        None => {},
    }
    assert(spec_parse_header(b) =~= Ok::<HeaderView, RtpError>(h));
}

} // verus!
