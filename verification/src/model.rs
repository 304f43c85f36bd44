use vstd::prelude::*;

verus! {

/// The mathematical state of a byte supply: a backing region and a cursor
/// over a logical window at its start.
pub struct Cursor {
    /// The bytes of the backing region, which never change.
    pub region: Seq<u8>,
    /// Position of the next byte inside the window.
    pub offset: nat,
    /// Length of the window: only `region[0 .. virtual_len]` is served.
    pub virtual_len: nat,
    /// Exclusive upper bound of the sizes derived for containers.
    pub size_limit: nat,
}

impl Cursor {
    /// The cursor a supply starts with: the window is the whole region, the
    /// position is its first byte, and the size limit is the region's length.
    pub open spec fn fresh(region: Seq<u8>) -> Cursor {
        Cursor { region, offset: 0, virtual_len: region.len(), size_limit: region.len() }
    }

    /// This cursor seen at another position.
    pub open spec fn at(self, offset: nat) -> Cursor {
        Cursor { offset, ..self }
    }

    /// This cursor with another window length.
    pub open spec fn windowed(self, virtual_len: nat) -> Cursor {
        Cursor { virtual_len, ..self }
    }

    /// This cursor with another size limit.
    pub open spec fn limited(self, size_limit: nat) -> Cursor {
        Cursor { size_limit, ..self }
    }

    /// Whether `other` is over the same region with the same size limit.
    /// No operation of a supply changes either.
    pub open spec fn same_source(self, other: Cursor) -> bool {
        self.region == other.region && self.size_limit == other.size_limit
    }
}

/// The number that `bytes` spell in base 256, least significant byte first.
pub open spec fn le_value(bytes: Seq<u8>) -> nat
    decreases bytes.len(),
{
    if bytes.len() == 0 {
        0
    } else {
        bytes[0] as nat + 256 * le_value(bytes.drop_first())
    }
}

/// Eight bytes spell a number below 2^64, each byte weighing 256 times its
/// predecessor.
pub proof fn lemma_le_value_of_eight(bytes: Seq<u8>)
    requires
        bytes.len() == 8,
    ensures
        le_value(bytes) == bytes[0] + 0x100 * bytes[1] + 0x1_0000 * bytes[2] + 0x100_0000
            * bytes[3] + 0x1_0000_0000 * bytes[4] + 0x100_0000_0000 * bytes[5]
            + 0x1_0000_0000_0000 * bytes[6] + 0x100_0000_0000_0000 * bytes[7],
        le_value(bytes) <= u64::MAX,
{
    let s1 = bytes.drop_first();
    let s2 = s1.drop_first();
    let s3 = s2.drop_first();
    let s4 = s3.drop_first();
    let s5 = s4.drop_first();
    let s6 = s5.drop_first();
    let s7 = s6.drop_first();
    let s8 = s7.drop_first();
    assert(s8.len() == 0);
    assert(le_value(s8) == 0);
    assert(le_value(s7) == s7[0] + 256 * le_value(s8));
    assert(le_value(s6) == s6[0] + 256 * le_value(s7));
    assert(le_value(s5) == s5[0] + 256 * le_value(s6));
    assert(le_value(s4) == s4[0] + 256 * le_value(s5));
    assert(le_value(s3) == s3[0] + 256 * le_value(s4));
    assert(le_value(s2) == s2[0] + 256 * le_value(s3));
    assert(le_value(s1) == s1[0] + 256 * le_value(s2));
    assert(le_value(bytes) == bytes[0] + 256 * le_value(s1));
}

} // verus!
