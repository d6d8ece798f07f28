//! A stateless well-formedness scan of an HPACK header block.
//!
//! The hpack crate's decoder reports malformed input as an error everywhere
//! but one place: a dynamic-table size update whose length integer is
//! truncated or overlong makes it abort the process. The boundaries of a
//! block's representations depend only on the bytes — integers and string
//! lengths need no table state — so this scan walks them and rejects
//! exactly the blocks under which the decoder would reach such an update.
//! The connection state machine runs it before handing a block to the
//! decoder.

use vstd::prelude::*;
use vstd::slice::slice_index_get;

verus! {

/// The continuation bytes of an HPACK integer, as the hpack crate reads
/// them: seven value bits per byte, least significant group first, at most
/// five octets in all, counting the prefix byte. `acc` is the value so far,
/// `mult` the weight of the next group, `used` the octets read so far.
/// `None` where the crate's decoder reports an error: a buffer that ends
/// mid-integer, or a fifth octet that still asks for more.
pub(crate) open spec fn spec_int_cont(s: Seq<u8>, j: int, acc: int, mult: int, used: int) -> Option<
    (int, int),
>
    decreases s.len() - j,
{
    if j < 0 || j >= s.len() {
        None
    } else {
        let acc2 = acc + (s[j] as int % 128) * mult;
        if s[j] < 128 {
            Some((acc2, j + 1))
        } else if used + 1 == 5 {
            None
        } else {
            spec_int_cont(s, j + 1, acc2, mult * 128, used + 1)
        }
    }
}

/// An HPACK integer at position `i`, its prefix occupying the low bits of
/// the first byte: `prefix_mod` is two to the prefix width. The value and
/// the position just past the integer, for exactly the encodings the hpack
/// crate's decoder accepts.
pub(crate) open spec fn spec_int(s: Seq<u8>, i: int, prefix_mod: int) -> Option<(int, int)> {
    if i < 0 || i >= s.len() || prefix_mod < 2 {
        None
    } else {
        let v = s[i] as int % prefix_mod;
        if v < prefix_mod - 1 {
            Some((v, i + 1))
        } else {
            spec_int_cont(s, i + 1, v, 1, 1)
        }
    }
}

/// The position just past a length-prefixed string at `i`; the huffman bit
/// does not change its length. `None` where the decoder reports an error.
pub(crate) open spec fn spec_str_end(s: Seq<u8>, i: int) -> Option<int> {
    match spec_int(s, i, 128) {
        None => None,
        Some(ve) => if ve.1 + ve.0 <= s.len() {
            Some(ve.1 + ve.0)
        } else {
            None
        },
    }
}

/// The position just past a literal header field at `i` whose leading
/// integer has the given prefix: the name index — a zero index is followed
/// by a name string — and then the value string.
pub(crate) open spec fn spec_literal_end(s: Seq<u8>, i: int, prefix_mod: int) -> Option<int> {
    match spec_int(s, i, prefix_mod) {
        None => None,
        Some(ve) => {
            let after_name = if ve.0 == 0 {
                spec_str_end(s, ve.1)
            } else {
                Some(ve.1)
            };
            match after_name {
                None => None,
                Some(n) => spec_str_end(s, n),
            }
        },
    }
}

/// Walks the representations from `i`. `false` exactly when the walk, over
/// well-formed representations, reaches a dynamic-table size update whose
/// integer the decoder rejects — the one input on which the hpack crate
/// aborts instead of returning an error. A malformed representation of any
/// other kind ends the walk as safe: the decoder reports it before reading
/// further.
pub(crate) open spec fn spec_block_safe_from(s: Seq<u8>, i: int) -> bool
    decreases s.len() - i,
{
    if i < 0 || i >= s.len() {
        true
    } else if s[i] >= 128 {
        match spec_int(s, i, 128) {
            None => true,
            Some(ve) => if i < ve.1 <= s.len() {
                spec_block_safe_from(s, ve.1)
            } else {
                false
            },
        }
    } else if s[i] >= 64 {
        match spec_literal_end(s, i, 64) {
            None => true,
            Some(e) => if i < e <= s.len() {
                spec_block_safe_from(s, e)
            } else {
                false
            },
        }
    } else if s[i] >= 32 {
        match spec_int(s, i, 32) {
            None => false,
            Some(ve) => if i < ve.1 <= s.len() {
                spec_block_safe_from(s, ve.1)
            } else {
                false
            },
        }
    } else {
        match spec_literal_end(s, i, 16) {
            None => true,
            Some(e) => if i < e <= s.len() {
                spec_block_safe_from(s, e)
            } else {
                false
            },
        }
    }
}

/// A block the hpack crate's decoder returns on — with headers or with an
/// error — rather than aborting.
pub(crate) open spec fn spec_block_safe(s: Seq<u8>) -> bool {
    spec_block_safe_from(s, 0)
}

fn int_cont(s: &[u8], j: usize, acc: usize, mult: usize, used: usize) -> (r: Option<
    (usize, usize),
>)
    requires
        j <= s@.len(),
        acc < mult * 128,
        1 <= used <= 4,
        used == 1 ==> mult == 1,
        used == 2 ==> mult == 128,
        used == 3 ==> mult == 16384,
        used == 4 ==> mult == 2097152,
    ensures
        match r {
            Some(ve) => spec_int_cont(s@, j as int, acc as int, mult as int, used as int) == Some(
                (ve.0 as int, ve.1 as int),
            ) && j < ve.1 <= s@.len() && ve.0 < 0x20000000,
            None => spec_int_cont(s@, j as int, acc as int, mult as int, used as int) is None,
        },
    decreases 5 - used,
{
    if j >= s.len() {
        return None;
    }
    let b = *slice_index_get(s, j);
    let acc2 = acc + (b as usize % 128) * mult;
    if b < 128 {
        Some((acc2, j + 1))
    } else if used + 1 == 5 {
        None
    } else {
        int_cont(s, j + 1, acc2, mult * 128, used + 1)
    }
}

fn hpack_int(s: &[u8], i: usize, prefix_mod: usize) -> (r: Option<(usize, usize)>)
    requires
        prefix_mod == 16 || prefix_mod == 32 || prefix_mod == 64 || prefix_mod == 128,
    ensures
        match r {
            Some(ve) => spec_int(s@, i as int, prefix_mod as int) == Some(
                (ve.0 as int, ve.1 as int),
            ) && i < ve.1 <= s@.len() && ve.0 < 0x20000000,
            None => spec_int(s@, i as int, prefix_mod as int) is None,
        },
{
    if i >= s.len() {
        return None;
    }
    let v = (*slice_index_get(s, i) as usize) % prefix_mod;
    if v < prefix_mod - 1 {
        Some((v, i + 1))
    } else {
        int_cont(s, i + 1, v, 1, 1)
    }
}

fn hpack_str_end_at(s: &[u8], i: usize) -> (r: Option<usize>)
    ensures
        match r {
            Some(e) => spec_str_end(s@, i as int) == Some(e as int) && i < e <= s@.len(),
            None => spec_str_end(s@, i as int) is None,
        },
{
    match hpack_int(s, i, 128) {
        None => None,
        Some((l, e)) => {
            if s.len() - e >= l {
                Some(e + l)
            } else {
                None
            }
        },
    }
}

fn hpack_literal_end_at(s: &[u8], i: usize, prefix_mod: usize) -> (r: Option<usize>)
    requires
        prefix_mod == 16 || prefix_mod == 64,
    ensures
        match r {
            Some(e) => spec_literal_end(s@, i as int, prefix_mod as int) == Some(e as int) && i < e
                <= s@.len(),
            None => spec_literal_end(s@, i as int, prefix_mod as int) is None,
        },
{
    let first = match hpack_int(s, i, prefix_mod) {
        None => {
            return None;
        },
        Some(x) => x,
    };
    let n = if first.0 == 0 {
        match hpack_str_end_at(s, first.1) {
            None => {
                return None;
            },
            Some(n) => n,
        }
    } else {
        first.1
    };
    hpack_str_end_at(s, n)
}

/// True iff the hpack crate's decoder returns on this block rather than
/// aborting; the state machine refuses to decode a block that fails this
/// scan.
pub(crate) fn block_safe(s: &[u8]) -> (r: bool)
    ensures
        r == spec_block_safe(s@),
{
    let mut i: usize = 0;
    while i < s.len()
        invariant
            i <= s@.len(),
            spec_block_safe(s@) == spec_block_safe_from(s@, i as int),
        decreases s@.len() - i,
    {
        let b = *slice_index_get(s, i);
        if b >= 128 {
            match hpack_int(s, i, 128) {
                None => {
                    return true;
                },
                Some(ve) => {
                    i = ve.1;
                },
            }
        } else if b >= 64 {
            match hpack_literal_end_at(s, i, 64) {
                None => {
                    return true;
                },
                Some(e) => {
                    i = e;
                },
            }
        } else if b >= 32 {
            match hpack_int(s, i, 32) {
                None => {
                    return false;
                },
                Some(ve) => {
                    i = ve.1;
                },
            }
        } else {
            match hpack_literal_end_at(s, i, 16) {
                None => {
                    return true;
                },
                Some(e) => {
                    i = e;
                },
            }
        }
    }
    true
}

} // verus!
