//! The byte layout of a CBCL file: its header, its tile table and the payload
//! of a tile once inflated.
use vstd::prelude::*;

use crate::error::{BclError, ParseKind, ParseStage};
use crate::lookup::{base_call, base_entry, qual_call, qual_entry, BASE_MASK, ILLUMINA_MIN_QUAL};

verus! {

/// Bytes before the rest of the header: version and header size.
pub const PREHEADER_SIZE: u32 = 6;

/// The little-endian `u16` at `at`.
pub open spec fn u16_at(s: Seq<u8>, at: int) -> int {
    s[at] + 256 * s[at + 1]
}

/// The little-endian `u32` at `at`.
pub open spec fn u32_at(s: Seq<u8>, at: int) -> int {
    s[at] + 256 * s[at + 1] + 65536 * s[at + 2] + 16777216 * s[at + 3]
}

/// Reads the little-endian `u16` at `at`.
pub fn read_u16_le(s: &[u8], at: usize) -> (r: u16)
    requires
        at + 2 <= s@.len(),
    ensures
        r as int == u16_at(s@, at as int),
{
    s[at] as u16 + 256 * (s[at + 1] as u16)
}

/// Reads the little-endian `u32` at `at`.
pub fn read_u32_le(s: &[u8], at: usize) -> (r: u32)
    requires
        at + 4 <= s@.len(),
    ensures
        r as int == u32_at(s@, at as int),
{
    s[at] as u32 + 256 * (s[at + 1] as u32) + 65536 * (s[at + 2] as u32) + 16777216 * (
    s[at + 3] as u32)
}

/// The tile payload decoded with the base table and, when `bins` is empty, the
/// quality table; otherwise each quality is `bins[b >> 2]`.
pub open spec fn decoded_bases(s: Seq<u8>) -> Seq<u8> {
    Seq::new(s.len(), |i: int| base_entry(s[i]))
}

/// See `decoded_bases`.
pub open spec fn decoded_quals(s: Seq<u8>, bins: Seq<u8>) -> Seq<u8> {
    if bins.len() == 0 {
        Seq::new(s.len(), |i: int| qual_entry(s[i]))
    } else {
        Seq::new(s.len(), |i: int| bins[(s[i] >> 2) as int])
    }
}

/// Every byte of the payload names a bin that exists (always true without bins).
pub open spec fn bins_cover(s: Seq<u8>, bins: Seq<u8>) -> bool {
    bins.len() == 0 || forall|i: int| 0 <= i < s.len() ==> ((#[trigger] s[i]) >> 2) < bins.len()
}

/// Each inflated byte as two clusters: the low nibble, then the high nibble.
pub open spec fn nibbles(d: Seq<u8>) -> Seq<u8> {
    Seq::new(
        2 * d.len(),
        |i: int|
            if i % 2 == 0 {
                d[i / 2] & 15
            } else {
                (d[i / 2] >> 4) & 15
            },
    )
}

/// The bases and qualities of a tile, one entry per cluster.
#[derive(Debug)]
pub struct BclTile {
    bases: Vec<u8>,
    quals: Vec<u8>,
}

impl BclTile {
    /// The base letters.
    pub closed spec fn bases_seq(&self) -> Seq<u8> {
        self.bases@
    }

    /// The qualities.
    pub closed spec fn quals_seq(&self) -> Seq<u8> {
        self.quals@
    }

    /// One base and one quality per cluster.
    pub open spec fn wf(&self) -> bool {
        self.bases_seq().len() == self.quals_seq().len()
    }

    /// A tile of `cap` clusters, all bytes zero.
    pub fn with_capacity(cap: usize) -> (r: BclTile)
        ensures
            r.bases_seq() == Seq::new(cap as nat, |i: int| 0u8),
            r.quals_seq() == Seq::new(cap as nat, |i: int| 0u8),
            r.wf(),
    {
        let bases: Vec<u8> = vec![0u8; cap];
        let quals: Vec<u8> = vec![0u8; cap];
        proof {
            assert(bases@ =~= Seq::new(cap as nat, |i: int| 0u8));
            assert(quals@ =~= Seq::new(cap as nat, |i: int| 0u8));
        }
        BclTile { bases, quals }
    }

    /// A tile made of the given bases and qualities.
    pub fn from_parts(bases: Vec<u8>, quals: Vec<u8>) -> (r: BclTile)
        requires
            bases@.len() == quals@.len(),
        ensures
            r.bases_seq() == bases@,
            r.quals_seq() == quals@,
            r.wf(),
    {
        BclTile { bases, quals }
    }

    /// Both columns at once, for a change that must keep them in step.
    pub(crate) fn columns_mut(&mut self) -> (r: (&mut Vec<u8>, &mut Vec<u8>))
        ensures
            r.0@ == old(self).bases_seq(),
            r.1@ == old(self).quals_seq(),
            final(self).bases_seq() == final(r.0)@,
            final(self).quals_seq() == final(r.1)@,
    {
        (&mut self.bases, &mut self.quals)
    }

    pub fn get_bases(&self) -> (r: &[u8])
        ensures
            r@ == self.bases_seq(),
    {
        self.bases.as_slice()
    }

    pub fn get_quals(&self) -> (r: &[u8])
        ensures
            r@ == self.quals_seq(),
    {
        self.quals.as_slice()
    }

    pub fn bases_mut(&mut self) -> (r: &mut [u8])
        ensures
            r@ == old(self).bases_seq(),
            final(self).bases_seq() == final(r)@,
            final(self).quals_seq() == old(self).quals_seq(),
    {
        self.bases.as_mut_slice()
    }

    pub fn quals_mut(&mut self) -> (r: &mut [u8])
        ensures
            r@ == old(self).quals_seq(),
            final(self).quals_seq() == final(r)@,
            final(self).bases_seq() == old(self).bases_seq(),
    {
        self.quals.as_mut_slice()
    }
}

/// The fixed fields of a header and its two tables, as read from the bytes that
/// follow the preheader.
#[derive(Debug)]
pub struct RawHeader {
    pub bits_per_bc: u8,
    pub bits_per_qs: u8,
    pub n_bins: u32,
    /// `(from_qual, to_qual)` pairs; `None` exactly when `n_bins` is zero.
    pub bin_pairs: Option<Vec<(u32, u32)>>,
    pub n_tiles: u32,
    /// `(tile_number, n_clusters, uncompressed_size, compressed_size)` rows.
    pub tile_rows: Vec<(u32, u32, u32, u32)>,
    pub non_pf_excluded: u8,
}

/// The number of quality bins, read after the two bit widths.
pub open spec fn bins_in(s: Seq<u8>) -> int {
    u32_at(s, 2)
}

/// Where the tile count stands.
pub open spec fn tile_count_pos(s: Seq<u8>) -> int {
    6 + 8 * bins_in(s)
}

/// The number of tiles.
pub open spec fn tiles_in(s: Seq<u8>) -> int {
    u32_at(s, tile_count_pos(s))
}

/// Where the tile table starts.
pub open spec fn tile_table_pos(s: Seq<u8>) -> int {
    tile_count_pos(s) + 4
}

/// Where the `non_pf_excluded` flag stands.
pub open spec fn pf_flag_pos(s: Seq<u8>) -> int {
    tile_table_pos(s) + 16 * tiles_in(s)
}

/// The bytes hold every field that their own counts announce.
pub open spec fn rest_fits(s: Seq<u8>) -> bool {
    &&& s.len() >= 6
    &&& s.len() >= tile_count_pos(s) + 4
    &&& s.len() >= pf_flag_pos(s) + 1
}

/// The `k`-th quality bin pair.
pub open spec fn bin_pair_at(s: Seq<u8>, k: int) -> (u32, u32) {
    (u32_at(s, 6 + 8 * k) as u32, u32_at(s, 10 + 8 * k) as u32)
}

/// The tile row that starts at `at`.
pub open spec fn tile_row_at(s: Seq<u8>, at: int) -> (u32, u32, u32, u32) {
    (
        u32_at(s, at) as u32,
        u32_at(s, at + 4) as u32,
        u32_at(s, at + 8) as u32,
        u32_at(s, at + 12) as u32,
    )
}

impl RawHeader {
    /// These are the fields that the bytes `s` hold.
    pub open spec fn describes(&self, s: Seq<u8>) -> bool {
        &&& self.bits_per_bc == s[0]
        &&& self.bits_per_qs == s[1]
        &&& self.n_bins as int == bins_in(s)
        &&& self.n_tiles as int == tiles_in(s)
        &&& (self.bin_pairs is None <==> self.n_bins == 0)
        &&& (self.bin_pairs matches Some(p) ==> p@ == Seq::new(
            self.n_bins as nat,
            |k: int| bin_pair_at(s, k),
        ))
        &&& self.tile_rows@ == Seq::new(
            self.n_tiles as nat,
            |k: int| tile_row_at(s, tile_table_pos(s) + 16 * k),
        )
        &&& self.non_pf_excluded == s[pf_flag_pos(s)]
    }
}

/// Reads the version and the total header size from the first six bytes.
pub fn parse_preheader(input: &[u8]) -> (r: Result<(u16, u32), BclError>)
    ensures
        input@.len() >= 6 <==> r is Ok,
        r matches Ok((v, size)) ==> v as int == u16_at(input@, 0) && size as int == u32_at(
            input@,
            2,
        ),
        r is Err ==> r == Err::<(u16, u32), BclError>(
            BclError::ParseError { stage: ParseStage::Preheader, kind: ParseKind::Truncated },
        ),
{
    if input.len() < 6 {
        return Err(BclError::ParseError { stage: ParseStage::Preheader, kind: ParseKind::Truncated });
    }
    Ok((read_u16_le(input, 0), read_u32_le(input, 2)))
}

/// Reads the 16-byte tile row that starts at `at`.
pub fn parse_tile_row(input: &[u8], at: usize) -> (r: Result<(u32, u32, u32, u32), BclError>)
    ensures
        at + 16 <= input@.len() <==> r is Ok,
        r matches Ok(row) ==> row == tile_row_at(input@, at as int),
        r is Err ==> r == Err::<(u32, u32, u32, u32), BclError>(
            BclError::ParseError { stage: ParseStage::TileRow, kind: ParseKind::Truncated },
        ),
{
    if input.len() < 16 || at > input.len() - 16 {
        return Err(BclError::ParseError { stage: ParseStage::TileRow, kind: ParseKind::Truncated });
    }
    Ok((
        read_u32_le(input, at),
        read_u32_le(input, at + 4),
        read_u32_le(input, at + 8),
        read_u32_le(input, at + 12),
    ))
}

/// Reads the rest of the header: bit widths, quality bins, tile table and the
/// `non_pf_excluded` flag. Bytes after the flag are left alone.
pub fn parse_rest_of_header(input: &[u8]) -> (r: Result<RawHeader, BclError>)
    ensures
        r is Ok <==> rest_fits(input@),
        r matches Ok(h) ==> h.describes(input@),
        r is Err ==> r == Err::<RawHeader, BclError>(
            BclError::ParseError { stage: ParseStage::Header, kind: ParseKind::Truncated },
        ),
{
    let truncated = BclError::ParseError { stage: ParseStage::Header, kind: ParseKind::Truncated };
    let ulen: usize = input.len();
    let len: u64 = ulen as u64;
    if len < 6 {
        return Err(truncated);
    }
    let bits_per_bc = input[0];
    let bits_per_qs = input[1];
    let n_bins = read_u32_le(input, 2);
    let count_pos: u64 = 6 + 8 * (n_bins as u64);
    if len < count_pos + 4 {
        return Err(truncated);
    }
    let count_at: usize = count_pos as usize;
    let n_tiles = read_u32_le(input, count_at);
    let table_pos: u64 = count_pos + 4;
    let flag_pos: u64 = table_pos + 16 * (n_tiles as u64);
    if len < flag_pos + 1 {
        return Err(truncated);
    }
    let bin_pairs = if n_bins == 0 {
        None
    } else {
        let mut pairs: Vec<(u32, u32)> = Vec::new();
        let mut k: usize = 0;
        while k < n_bins as usize
            invariant
                k <= n_bins,
                input@.len() == ulen,
                6 + 8 * (n_bins as int) + 4 <= input@.len(),
                pairs@ == Seq::new(k as nat, |j: int| bin_pair_at(input@, j)),
            decreases n_bins - k,
        {
            let from_qual = read_u32_le(input, 6 + 8 * k);
            let to_qual = read_u32_le(input, 10 + 8 * k);
            pairs.push((from_qual, to_qual));
            k = k + 1;
            assert(pairs@ =~= Seq::new(k as nat, |j: int| bin_pair_at(input@, j)));
        }
        Some(pairs)
    };
    let mut tile_rows: Vec<(u32, u32, u32, u32)> = Vec::new();
    let table_at: usize = table_pos as usize;
    let mut k: usize = 0;
    while k < n_tiles as usize
        invariant
            k <= n_tiles,
            input@.len() == ulen,
            table_at == tile_table_pos(input@),
            n_tiles as int == tiles_in(input@),
            table_at + 16 * (n_tiles as int) + 1 <= input@.len(),
            tile_rows@ == Seq::new(
                k as nat,
                |j: int| tile_row_at(input@, tile_table_pos(input@) + 16 * j),
            ),
        decreases n_tiles - k,
    {
        let row = match parse_tile_row(input, table_at + 16 * k) {
            Ok(row) => row,
            Err(e) => {
                return Err(truncated);
            },
        };
        tile_rows.push(row);
        k = k + 1;
        assert(tile_rows@ =~= Seq::new(
            k as nat,
            |j: int| tile_row_at(input@, tile_table_pos(input@) + 16 * j),
        ));
    }
    let non_pf_excluded = input[flag_pos as usize];
    Ok(RawHeader { bits_per_bc, bits_per_qs, n_bins, bin_pairs, n_tiles, tile_rows, non_pf_excluded })
}

/// The quality of each bin: the `to_qual` of its pair truncated to a byte,
/// except the first bin, which is always the minimum quality.
pub open spec fn bin_lookup(pairs: Seq<(u32, u32)>) -> Seq<u8> {
    Seq::new(
        pairs.len(),
        |i: int|
            if i == 0 {
                ILLUMINA_MIN_QUAL
            } else {
                pairs[i].1 as u8
            },
    )
}

/// Turns the bin pairs of a header into the quality of each bin; no pairs give
/// an empty table, which means the file is not binned.
pub fn into_bin_lookup(raw_bins: Option<Vec<(u32, u32)>>) -> (r: Vec<u8>)
    requires
        raw_bins matches Some(v) ==> v@.len() > 0,
    ensures
        raw_bins is None ==> r@.len() == 0,
        raw_bins matches Some(v) ==> r@ == bin_lookup(v@),
        raw_bins is Some ==> r@[0] == ILLUMINA_MIN_QUAL,
{
    match raw_bins {
        None => Vec::with_capacity(0),
        Some(raw) => {
            let mut bins: Vec<u8> = Vec::with_capacity(raw.len());
            let mut i: usize = 0;
            while i < raw.len()
                invariant
                    i <= raw@.len(),
                    raw@.len() > 0,
                    bins@ == bin_lookup(raw@).subrange(0, i as int),
                decreases raw@.len() - i,
            {
                if i == 0 {
                    bins.push(ILLUMINA_MIN_QUAL);
                } else {
                    bins.push(raw[i].1 as u8);
                }
                i = i + 1;
                assert(bins@ =~= bin_lookup(raw@).subrange(0, i as int));
            }
            assert(bins@ =~= bin_lookup(raw@));
            bins
        },
    }
}

/// Replaces each call `x` by the quality of its bin, `bins[x >> 2]`.
pub fn bin_base_calls(calls: &mut [u8], bins: &mut [u8])
    requires
        forall|i: int| 0 <= i < old(calls)@.len() ==> ((#[trigger] old(calls)@[i]) >> 2) < old(
            bins,
        )@.len(),
    ensures
        final(bins)@ == old(bins)@,
        final(calls)@ == Seq::new(
            old(calls)@.len(),
            |i: int| old(bins)@[(old(calls)@[i] >> 2) as int],
        ),
{
    let n: usize = calls.len();
    let mut i: usize = 0;
    while i < n
        invariant
            n == calls@.len(),
            n == old(calls)@.len(),
            bins@ == old(bins)@,
            i <= n,
            forall|j: int| 0 <= j < n ==> ((#[trigger] old(calls)@[j]) >> 2) < bins@.len(),
            forall|j: int| i <= j < n ==> #[trigger] calls@[j] == old(calls)@[j],
            forall|j: int|
                0 <= j < i ==> #[trigger] calls@[j] == old(bins)@[(old(calls)@[j] >> 2) as int],
        decreases n - i,
    {
        let x = calls[i];
        calls[i] = bins[(x >> 2) as usize];
        i = i + 1;
    }
    assert(calls@ =~= Seq::new(n as nat, |i: int| old(bins)@[(old(calls)@[i] >> 2) as int]));
}

/// Decodes an unpacked tile payload: each byte gives a base through the base
/// table, and a quality through `bins` when there are bins, through the
/// quality table otherwise. A byte whose bin does not exist is refused.
pub fn decode_tile_payload(input: &[u8], bins: &[u8]) -> (r: Result<BclTile, BclError>)
    ensures
        r is Ok <==> bins_cover(input@, bins@),
        r matches Ok(t) ==> t.wf() && t.bases_seq() == decoded_bases(input@) && t.quals_seq()
            == decoded_quals(input@, bins@),
        r is Err ==> r == Err::<BclTile, BclError>(
            BclError::ParseError { stage: ParseStage::Payload, kind: ParseKind::BadRecord },
        ),
{
    let n: usize = input.len();
    let nb: usize = bins.len();
    let mut bases: Vec<u8> = Vec::with_capacity(n);
    let mut quals: Vec<u8> = Vec::with_capacity(n);
    let mut i: usize = 0;
    while i < n
        invariant
            n == input@.len(),
            nb == bins@.len(),
            i <= n,
            bases@ == decoded_bases(input@).subrange(0, i as int),
            quals@ == decoded_quals(input@, bins@).subrange(0, i as int),
            nb > 0 ==> forall|j: int| 0 <= j < i ==> ((#[trigger] input@[j]) >> 2) < nb,
        decreases n - i,
    {
        let b = input[i];
        bases.push(base_call(b));
        if nb == 0 {
            quals.push(qual_call(b));
        } else {
            let k: usize = (b >> 2) as usize;
            if k >= nb {
                return Err(
                    BclError::ParseError { stage: ParseStage::Payload, kind: ParseKind::BadRecord },
                );
            }
            quals.push(bins[k]);
        }
        i = i + 1;
        assert(bases@ =~= decoded_bases(input@).subrange(0, i as int));
        assert(quals@ =~= decoded_quals(input@, bins@).subrange(0, i as int));
    }
    assert(bases@ =~= decoded_bases(input@));
    assert(quals@ =~= decoded_quals(input@, bins@));
    Ok(BclTile { bases, quals })
}

/// Appends the clusters of the inflated bytes `d` to `out`, two per byte, the
/// low nibble first.
pub fn expand_nibbles(d: &[u8], out: &mut Vec<u8>)
    ensures
        final(out)@ == old(out)@ + nibbles(d@),
{
    let n: usize = d.len();
    let ghost start = old(out)@;
    let mut k: usize = 0;
    while k < n
        invariant
            n == d@.len(),
            k <= n,
            out@.len() == start.len() + 2 * k,
            out@.subrange(0, start.len() as int) == start,
            forall|i: int| 0 <= i < 2 * k ==> #[trigger] out@[start.len() + i] == nibbles(d@)[i],
        decreases n - k,
    {
        let x = d[k];
        out.push(x & 15);
        out.push((x >> 4) & 15);
        proof {
            assert(out@.subrange(0, start.len() as int) =~= start);
            assert forall|i: int| 0 <= i < 2 * (k + 1) implies #[trigger] out@[start.len() + i]
                == nibbles(d@)[i] by {
                if i == 2 * k {
                    assert(i / 2 == k && i % 2 == 0);
                } else if i == 2 * k + 1 {
                    assert(i / 2 == k && i % 2 == 1);
                }
            }
        }
        k = k + 1;
    }
    assert forall|i: int| 0 <= i < out@.len() implies out@[i] == (start + nibbles(d@))[i] by {
        if i < start.len() {
            assert(out@.subrange(0, start.len() as int)[i] == out@[i]);
        } else {
            assert(out@[start.len() + (i - start.len())] == nibbles(d@)[i - start.len()]);
        }
    }
    assert(out@ =~= start + nibbles(d@));
}

/// Two clusters per byte, the first in the low nibble: the packing that
/// `nibbles` undoes.
pub open spec fn pack(codes: Seq<u8>) -> Seq<u8> {
    Seq::new(codes.len() / 2, |k: int| (codes[2 * k] + 16 * codes[2 * k + 1]) as u8)
}

/// Every entry is a nibble.
pub open spec fn all_nibbles(codes: Seq<u8>) -> bool {
    forall|i: int| 0 <= i < codes.len() ==> #[trigger] codes[i] < 16
}

/// Unpacking a packed run of nibbles gives the run back.
pub proof fn lemma_nibbles_pack(codes: Seq<u8>)
    requires
        codes.len() % 2 == 0,
        all_nibbles(codes),
    ensures
        nibbles(pack(codes)) == codes,
{
    let p = pack(codes);
    assert forall|i: int| 0 <= i < codes.len() implies #[trigger] nibbles(p)[i] == codes[i] by {
        let k = i / 2;
        let lo = codes[2 * k];
        let hi = codes[2 * k + 1];
        assert(lo < 16 && hi < 16);
        let b: u8 = (lo + 16 * hi) as u8;
        assert(p[k] == b);
        assert((b & 15) == lo && ((b >> 4) & 15) == hi) by (bit_vector)
            requires
                lo < 16,
                hi < 16,
                b == (lo + 16 * hi) as u8,
        ;
    }
    assert(nibbles(p) =~= codes);
}

/// Every decoded base is one of `A`, `C`, `G`, `T`, `N`, and every quality is
/// at least the minimum quality, for payload bytes in `0..=254` and bins that
/// are all at least that minimum.
pub proof fn lemma_decoded_calls(s: Seq<u8>, bins: Seq<u8>)
    requires
        forall|i: int| 0 <= i < s.len() ==> #[trigger] s[i] <= 254,
        bins_cover(s, bins),
        forall|j: int| 0 <= j < bins.len() ==> #[trigger] bins[j] >= ILLUMINA_MIN_QUAL,
    ensures
        decoded_bases(s).len() == s.len(),
        decoded_quals(s, bins).len() == s.len(),
        forall|i: int|
            0 <= i < s.len() ==> {
                let b = #[trigger] decoded_bases(s)[i];
                b == 65 || b == 67 || b == 71 || b == 84 || b == 78
            },
        forall|i: int| 0 <= i < s.len() ==> #[trigger] decoded_quals(s, bins)[i] >= ILLUMINA_MIN_QUAL,
{
    assert forall|i: int| 0 <= i < s.len() implies {
        let b = #[trigger] decoded_bases(s)[i];
        b == 65 || b == 67 || b == 71 || b == 84 || b == 78
    } by {
        let x = s[i];
        let k = x & BASE_MASK;
        assert(k < 4) by (bit_vector)
            requires
                k == x & 3u8,
        ;
    }
    assert forall|i: int| 0 <= i < s.len() implies #[trigger] decoded_quals(s, bins)[i]
        >= ILLUMINA_MIN_QUAL by {
        if bins.len() > 0 {
            assert((s[i] >> 2) < bins.len());
        }
    }
}

} // verus!
