use vstd::prelude::*;
use crate::model::{Cursor, le_value, lemma_le_value_of_eight};

verus! {

/// A source of raw bytes for building structured values.
///
/// A supply is described by its [`Cursor`]. Each strategy says, as functions
/// of the cursor, which cursors it accepts, whether a request can be met, the
/// bytes a request yields, and the cursor that each operation leaves behind.
/// The operations are then specified once, here, in those terms.
pub trait Unstructured: View<V = Cursor> + Sized {
    /// What an operation reports when the supply cannot serve it.
    type Error;

    /// The cursors this strategy can be in.
    spec fn valid(c: Cursor) -> bool;

    /// Whether the window has anything to serve at all. Reading and skipping
    /// are only defined on such cursors.
    spec fn serving(c: Cursor) -> bool;

    /// Whether `n` more bytes can be had.
    spec fn can_take(c: Cursor, n: nat) -> bool;

    /// The next `n` bytes.
    spec fn taken(c: Cursor, n: nat) -> Seq<u8>;

    /// The cursor after `n` bytes were consumed.
    spec fn advanced(c: Cursor, n: nat) -> Cursor;

    /// The cursor after a reset.
    spec fn rewound(c: Cursor) -> Cursor;

    /// The cursor after its window was halved.
    spec fn halved(c: Cursor) -> Cursor;

    /// Fills `buffer` with the next `buffer.len()` bytes and moves past them.
    ///
    /// Either the whole request is met, or nothing happens: on failure both
    /// the supply and `buffer` are left as they were.
    fn fill_buffer(&mut self, buffer: &mut [u8]) -> (r: Result<(), Self::Error>)
        requires
            Self::valid(old(self)@),
            Self::serving(old(self)@),
        ensures
            Self::valid(final(self)@),
            r is Ok <==> Self::can_take(old(self)@, old(buffer)@.len()),
            r is Ok ==> final(buffer)@ == Self::taken(old(self)@, old(buffer)@.len()),
            r is Ok ==> final(self)@ == Self::advanced(old(self)@, old(buffer)@.len()),
            r is Err ==> final(buffer)@ == old(buffer)@,
            r is Err ==> final(self)@ == old(self)@,
            final(buffer)@.len() == old(buffer)@.len(),
            final(self)@.same_source(old(self)@),
            final(self)@.virtual_len == old(self)@.virtual_len,
            Self::serving(final(self)@),
    ;

    /// Derives a size for a variable-length container: reads an eight-byte
    /// little-endian integer from the supply and reduces it modulo the size
    /// limit. With a size limit of zero the integer is still consumed and the
    /// size is zero.
    fn container_size(&mut self) -> (r: Result<usize, Self::Error>)
        requires
            Self::valid(old(self)@),
            Self::serving(old(self)@),
        ensures
            Self::valid(final(self)@),
            r is Ok <==> Self::can_take(old(self)@, 8),
            r is Ok ==> r->Ok_0 == size_from(
                le_value(Self::taken(old(self)@, 8)),
                old(self)@.size_limit,
            ),
            r is Ok ==> old(self)@.size_limit > 0 ==> r->Ok_0 < old(self)@.size_limit,
            r is Ok ==> final(self)@ == Self::advanced(old(self)@, 8),
            r is Err ==> final(self)@ == old(self)@,
            final(self)@.same_source(old(self)@),
            final(self)@.virtual_len == old(self)@.virtual_len,
            Self::serving(final(self)@),
    ;

    /// Moves back to the start of the region.
    fn reset(&mut self)
        requires
            Self::valid(old(self)@),
        ensures
            Self::valid(final(self)@),
            final(self)@ == Self::rewound(old(self)@),
            final(self)@.offset == 0,
            final(self)@.same_source(old(self)@),
    ;

    /// Moves past `total` bytes without reading them. On failure the supply
    /// is left as it was.
    fn shift_right(&mut self, total: usize) -> (r: Result<(), Self::Error>)
        requires
            Self::valid(old(self)@),
            Self::serving(old(self)@),
        ensures
            Self::valid(final(self)@),
            r is Ok <==> Self::can_take(old(self)@, total as nat),
            r is Ok ==> final(self)@ == Self::advanced(old(self)@, total as nat),
            r is Err ==> final(self)@ == old(self)@,
            final(self)@.same_source(old(self)@),
            final(self)@.virtual_len == old(self)@.virtual_len,
            Self::serving(final(self)@),
    ;

    /// Halves the window, rounding down, and returns its new length.
    fn shrink(&mut self) -> (r: usize)
        requires
            Self::valid(old(self)@),
        ensures
            Self::valid(final(self)@),
            final(self)@ == Self::halved(old(self)@),
            r == old(self)@.virtual_len / 2,
            r == final(self)@.virtual_len,
            final(self)@.same_source(old(self)@),
    ;
}

/// The size that a decoded integer stands for under a size limit: its
/// remainder by the limit, and zero where the limit is zero.
pub open spec fn size_from(value: nat, limit: nat) -> nat {
    if limit == 0 {
        0
    } else {
        value % limit
    }
}

/// Reduces a decoded integer to a size below `limit`.
pub fn reduce_to_size(value: u64, limit: usize) -> (r: usize)
    ensures
        r == size_from(value as nat, limit as nat),
        limit > 0 ==> r < limit,
{
    if limit == 0 {
        0
    } else {
        let m: u64 = limit as u64;
        let q: u64 = value % m;
        q as usize
    }
}

/// Reads an eight-byte little-endian integer from `supply`.
pub fn arbitrary_u64<U: Unstructured>(supply: &mut U) -> (r: Result<u64, U::Error>)
    requires
        U::valid(old(supply)@),
        U::serving(old(supply)@),
    ensures
        U::valid(final(supply)@),
        r is Ok <==> U::can_take(old(supply)@, 8),
        r is Ok ==> r->Ok_0 == le_value(U::taken(old(supply)@, 8)),
        r is Ok ==> final(supply)@ == U::advanced(old(supply)@, 8),
        r is Err ==> final(supply)@ == old(supply)@,
        final(supply)@.same_source(old(supply)@),
        final(supply)@.virtual_len == old(supply)@.virtual_len,
        U::serving(final(supply)@),
{
    let mut bytes: [u8; 8] = [0, 0, 0, 0, 0, 0, 0, 0];
    match supply.fill_buffer(&mut bytes) {
        Ok(()) => Ok(word_of(&bytes)),
        Err(e) => Err(e),
    }
}

/// The integer that eight bytes spell, least significant byte first.
pub fn word_of(bytes: &[u8; 8]) -> (r: u64)
    ensures
        r == le_value(bytes@),
{
    proof {
        lemma_le_value_of_eight(bytes@);
    }
    let b0: u64 = bytes[0] as u64;
    let b1: u64 = bytes[1] as u64;
    let b2: u64 = bytes[2] as u64;
    let b3: u64 = bytes[3] as u64;
    let b4: u64 = bytes[4] as u64;
    let b5: u64 = bytes[5] as u64;
    let b6: u64 = bytes[6] as u64;
    let b7: u64 = bytes[7] as u64;
    b0 + 0x100 * b1 + 0x1_0000 * b2 + 0x100_0000 * b3 + 0x1_0000_0000 * b4 + 0x100_0000_0000 * b5
        + 0x1_0000_0000_0000 * b6 + 0x100_0000_0000_0000 * b7
}

} // verus!
