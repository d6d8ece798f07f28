//! The HPACK decoder of the hpack crate, held opaquely. One decoder lives
//! for the whole connection, because the dynamic table it accumulates must
//! stay in step with the peer's encoder across header blocks.

use vstd::prelude::*;

verus! {

#[verifier::external_type_specification]
#[verifier::external_body]
pub struct ExDecoder<'a>(hpack::Decoder<'a>);

/// Relies on hpack::Decoder::new: a fresh decoder holding the HPACK static
/// table and an empty dynamic table.
#[verifier::external_body]
pub(crate) fn new_decoder() -> hpack::Decoder<'static> {
    hpack::Decoder::new()
}

/// Relies on hpack::Decoder::decode: decodes one header block into its
/// name/value pairs, updating the decoder's dynamic table; `None` on a
/// malformed block. The decoder returns an error for malformed input
/// everywhere except a dynamic-table size update with a truncated or
/// overlong integer, where it aborts instead; the precondition — checked by
/// the verified scan in `hpack_scan` — keeps such blocks out. The pairs
/// depend on the decoder's accumulated state, so nothing is promised of
/// them.
#[verifier::external_body]
pub(crate) fn decode_header_block(
    decoder: &mut hpack::Decoder<'static>,
    block: &[u8],
) -> (r: Option<Vec<(Vec<u8>, Vec<u8>)>>)
    requires
        crate::hpack_scan::spec_block_safe(block@),
{
    decoder.decode(block).ok()
}

} // verus!
