//! Tables that turn one unpacked CBCL nibble into a base letter and a quality.
use vstd::prelude::*;

verus! {

/// The lowest quality that a call is given.
pub const ILLUMINA_MIN_QUAL: u8 = 2;

/// The letter of a no-call.
pub const NO_CALL: u8 = 78;

/// Mask that picks the base out of a nibble.
pub const BASE_MASK: u8 = 3;

/// `'A'`, `'C'`, `'G'`, `'T'` for the values `0..4` of the two base bits.
pub open spec fn acgt(k: u8) -> u8 {
    if k == 0 {
        65u8
    } else if k == 1 {
        67u8
    } else if k == 2 {
        71u8
    } else {
        84u8
    }
}

/// The entry of the base table at `i`.
pub open spec fn base_entry(i: u8) -> u8 {
    if i == 0 {
        NO_CALL
    } else if i == 255 {
        0
    } else {
        acgt(i & BASE_MASK)
    }
}

/// The entry of the quality table at `i`: `max(2, i >> 2)` on `1..=254`.
pub open spec fn qual_entry(i: u8) -> u8 {
    if i == 0 {
        ILLUMINA_MIN_QUAL
    } else if i == 255 {
        0
    } else if ILLUMINA_MIN_QUAL < (i >> 2) {
        i >> 2
    } else {
        ILLUMINA_MIN_QUAL
    }
}

/// The base letter of one byte of a tile payload.
pub fn base_call(i: u8) -> (r: u8)
    ensures
        r == base_entry(i),
{
    if i == 0 {
        NO_CALL
    } else if i == 255 {
        0
    } else {
        let k: u8 = i & BASE_MASK;
        if k == 0 {
            65
        } else if k == 1 {
            67
        } else if k == 2 {
            71
        } else {
            84
        }
    }
}

/// The quality of one byte of a tile payload, for a file without quality bins.
pub fn qual_call(i: u8) -> (r: u8)
    ensures
        r == qual_entry(i),
{
    if i == 0 {
        ILLUMINA_MIN_QUAL
    } else if i == 255 {
        0
    } else if ILLUMINA_MIN_QUAL < (i >> 2) {
        i >> 2
    } else {
        ILLUMINA_MIN_QUAL
    }
}

/// The 256-entry base table: `'N'` at 0 and `"ACGT"[i & 3]` on `1..=254`.
pub fn calculate_base_lookup() -> (r: [u8; 256])
    ensures
        r[0] == NO_CALL,
        forall|i: int| 1 <= i <= 254 ==> r[i] == acgt((i as u8) & BASE_MASK),
        forall|i: int| 0 <= i < 256 ==> #[trigger] r[i] == base_entry(i as u8),
{
    let mut table: [u8; 256] = [0u8; 256];
    let mut i: usize = 0;
    while i < 256
        invariant
            i <= 256,
            forall|j: int| 0 <= j < i ==> #[trigger] table[j] == base_entry(j as u8),
        decreases 256 - i,
    {
        table[i] = base_call(i as u8);
        i = i + 1;
    }
    table
}

/// The 256-entry quality table: 2 at 0 and `max(2, i >> 2)` on `1..=254`.
pub fn calculate_qual_lookup() -> (r: [u8; 256])
    ensures
        r[0] == ILLUMINA_MIN_QUAL,
        forall|i: int|
            1 <= i <= 254 ==> r[i] == if ILLUMINA_MIN_QUAL < ((i as u8) >> 2) {
                (i as u8) >> 2
            } else {
                ILLUMINA_MIN_QUAL
            },
        forall|i: int| 0 <= i < 256 ==> #[trigger] r[i] == qual_entry(i as u8),
{
    let mut table: [u8; 256] = [0u8; 256];
    let mut i: usize = 0;
    while i < 256
        invariant
            i <= 256,
            forall|j: int| 0 <= j < i ==> #[trigger] table[j] == qual_entry(j as u8),
        decreases 256 - i,
    {
        table[i] = qual_call(i as u8);
        i = i + 1;
    }
    table
}

} // verus!
