//! A streaming CBCL reader. It does no I/O itself: it says how many bytes it
//! needs next, is handed what the file held there, and answers with a tile,
//! an error, or nothing yet. Every error ends the file.
use libdeflater::Decompressor;
use vstd::prelude::*;

use crate::cbcl::{
    all_nibbles, bin_lookup, bins_cover, bins_in, decode_tile_payload, decoded_bases,
    decoded_quals, expand_nibbles, into_bin_lookup, lemma_decoded_calls, lemma_nibbles_pack,
    nibbles, pack, parse_preheader, parse_rest_of_header, pf_flag_pos, rest_fits, tile_row_at,
    tile_table_pos, tiles_in, u16_at, u32_at, BclTile, PREHEADER_SIZE,
};
use crate::error::{BclError, ParseKind, ParseStage};
use crate::filter::{filter_reads, kept, FilterCache};
use crate::inflate::{gzip_inflated, gzip_into};
use crate::lookup::ILLUMINA_MIN_QUAL;

verus! {

/// Buffer size that `CBclReader::new` reserves.
pub const DEFAULT_BCL_READER_CAPACITY: usize = 1_000_000;

/// Where a reader stands in its file.
#[derive(Debug, Clone, Copy, PartialEq, Eq, Structural)]
pub enum CbclReaderState {
    Header,
    Tile,
    Complete,
}

/// The header of the file being read.
#[derive(Debug)]
pub struct CBclHeader {
    pub version: u16,
    pub size: u32,
    pub bits_per_bc: u8,
    pub bits_per_qs: u8,
    pub n_bins: u32,
    /// Quality of each bin; empty when the file is not binned.
    pub bins: Vec<u8>,
    pub n_tiles: u32,
}

impl CBclHeader {
    /// A header with every field zero, before any file was read.
    pub fn empty() -> (r: CBclHeader)
        ensures
            r.version == 0 && r.size == 0 && r.n_tiles == 0 && r.bins@.len() == 0,
    {
        CBclHeader {
            version: 0,
            size: 0,
            bits_per_bc: 0,
            bits_per_qs: 0,
            n_bins: 0,
            bins: Vec::new(),
            n_tiles: 0,
        }
    }
}

/// One row of the tile table, with what the reader learnt about it.
#[derive(Debug, Clone, Copy, PartialEq, Eq, Structural)]
pub struct TileData {
    pub tile_num: u32,
    pub num_clusters: u32,
    /// Size of the inflated block; the tile has twice as many clusters.
    pub block_size_un: u32,
    /// Size of the gzip block in the file.
    pub block_size_comp: u32,
    /// The file already left out the clusters that fail the filter.
    pub pf_excluded: bool,
    /// A filter for this tile was at hand when the header was read.
    pub filter: bool,
}

impl TileData {
    pub fn has_filter(&self) -> (r: bool)
        ensures
            r == self.filter,
    {
        self.filter
    }

    /// The filter of this tile, from the lane's cache.
    pub fn get_or_read_filter<'a>(&self, cache: &'a FilterCache) -> (r: Option<&'a Vec<u8>>)
        ensures
            r is Some <==> self.filter && cache.view_map().contains_key(self.tile_num),
            r matches Some(f) ==> f@ == cache.view_map()[self.tile_num],
    {
        if self.filter {
            cache.get(self.tile_num)
        } else {
            None
        }
    }
}

/// The tile entry made from a row of the tile table.
pub open spec fn tile_entry(
    row: (u32, u32, u32, u32),
    pf_flag: u8,
    filters: Map<u32, Seq<u8>>,
) -> TileData {
    TileData {
        tile_num: row.0,
        num_clusters: row.1,
        block_size_un: row.2,
        block_size_comp: row.3,
        pf_excluded: pf_flag == 1,
        filter: filters.contains_key(row.0),
    }
}

/// What a reader is, as far as its answers go.
pub struct ReaderModel {
    pub state: CbclReaderState,
    /// In `Header`: the six leading bytes were read.
    pub have_preheader: bool,
    pub version: u16,
    pub size: u32,
    pub bins: Seq<u8>,
    pub tiles: Seq<TileData>,
    pub n_read: u32,
    pub filters: Map<u32, Seq<u8>>,
}

/// A tile as handed out: its bases and its qualities.
pub type TileView = (Seq<u8>, Seq<u8>);

/// What one call of `feed` hands out.
pub type Outcome = Option<Result<TileView, BclError>>;

impl ReaderModel {
    pub open spec fn wf(self) -> bool {
        &&& self.tiles.len() <= u32::MAX
        &&& (self.state == CbclReaderState::Tile ==> self.n_read < self.tiles.len())
        &&& (self.have_preheader ==> self.state == CbclReaderState::Header && self.size >= 6)
    }

    /// The same reader, stopped.
    pub open spec fn halted(self) -> ReaderModel {
        ReaderModel { state: CbclReaderState::Complete, have_preheader: false, ..self }
    }

    /// The same reader past one more tile.
    pub open spec fn advanced(self) -> ReaderModel {
        ReaderModel {
            state: if self.n_read + 1 == self.tiles.len() {
                CbclReaderState::Complete
            } else {
                CbclReaderState::Tile
            },
            n_read: (self.n_read + 1) as u32,
            ..self
        }
    }

    /// How many bytes the reader needs next; `None` once it is complete.
    pub open spec fn wanted(self) -> Option<u32> {
        match self.state {
            CbclReaderState::Header => if self.have_preheader {
                Some((self.size - PREHEADER_SIZE) as u32)
            } else {
                Some(PREHEADER_SIZE)
            },
            CbclReaderState::Tile => Some(self.tiles[self.n_read as int].block_size_comp),
            CbclReaderState::Complete => None,
        }
    }
}

/// A reader that has read nothing, holding `filters`.
pub open spec fn fresh(filters: Map<u32, Seq<u8>>) -> ReaderModel {
    ReaderModel {
        state: CbclReaderState::Header,
        have_preheader: false,
        version: 0,
        size: 0,
        bins: Seq::empty(),
        tiles: Seq::empty(),
        n_read: 0,
        filters,
    }
}

/// A reader set back to the start of a new file. The tile table stays unless
/// `clear_tile_cache`; reading the next header replaces it anyway.
pub open spec fn reset_model(m: ReaderModel, clear_tile_cache: bool) -> ReaderModel {
    ReaderModel {
        tiles: if clear_tile_cache {
            Seq::empty()
        } else {
            m.tiles
        },
        ..fresh(m.filters)
    }
}

/// The six leading bytes.
pub open spec fn step_preheader(m: ReaderModel, chunk: Seq<u8>) -> (ReaderModel, Outcome) {
    if chunk.len() < 6 {
        (m.halted(), Some(Err(BclError::EofError)))
    } else if u32_at(chunk, 2) < 6 {
        (
            m.halted(),
            Some(
                Err(BclError::ParseError { stage: ParseStage::Preheader, kind: ParseKind::BadRecord }),
            ),
        )
    } else {
        (
            ReaderModel {
                have_preheader: true,
                version: u16_at(chunk, 0) as u16,
                size: u32_at(chunk, 2) as u32,
                ..m
            },
            None,
        )
    }
}

/// The rest of the header: bins and tile table.
pub open spec fn step_header(m: ReaderModel, chunk: Seq<u8>) -> (ReaderModel, Outcome) {
    if chunk.len() != m.size - 6 {
        (m.halted(), Some(Err(BclError::EofError)))
    } else if !rest_fits(chunk) {
        (
            m.halted(),
            Some(Err(BclError::ParseError { stage: ParseStage::Header, kind: ParseKind::Truncated })),
        )
    } else {
        let t = tiles_in(chunk);
        (
            ReaderModel {
                state: if t == 0 {
                    CbclReaderState::Complete
                } else {
                    CbclReaderState::Tile
                },
                have_preheader: false,
                bins: if bins_in(chunk) == 0 {
                    Seq::empty()
                } else {
                    bin_lookup(
                        Seq::new(
                            bins_in(chunk) as nat,
                            |k: int| crate::cbcl::bin_pair_at(chunk, k),
                        ),
                    )
                },
                tiles: Seq::new(
                    t as nat,
                    |k: int|
                        tile_entry(
                            tile_row_at(chunk, tile_table_pos(chunk) + 16 * k),
                            chunk[pf_flag_pos(chunk)],
                            m.filters,
                        ),
                ),
                n_read: 0,
                ..m
            },
            None,
        )
    }
}

/// The clusters of a tile, before any filter, from its inflated block.
pub open spec fn tile_clusters(d: Seq<u8>, bins: Seq<u8>) -> TileView {
    (decoded_bases(nibbles(d)), decoded_quals(nibbles(d), bins))
}

/// One tile block.
pub open spec fn step_tile(m: ReaderModel, chunk: Seq<u8>) -> (ReaderModel, Outcome) {
    let row = m.tiles[m.n_read as int];
    let un = row.block_size_un;
    if chunk.len() != row.block_size_comp {
        (
            m.halted(),
            Some(
                Err(
                    BclError::CompSizeMismatch {
                        expected: row.block_size_comp,
                        got: chunk.len() as usize,
                    },
                ),
            ),
        )
    } else {
        match gzip_inflated(chunk, un as nat) {
            None => (m.halted(), Some(Err(BclError::DecompressError))),
            Some(d) => if d.len() != un {
                (m.halted(), Some(Err(BclError::DecompSizeMismatch)))
            } else if !bins_cover(nibbles(d), m.bins) {
                (
                    m.halted(),
                    Some(
                        Err(
                            BclError::ParseError {
                                stage: ParseStage::Payload,
                                kind: ParseKind::BadRecord,
                            },
                        ),
                    ),
                )
            } else if row.pf_excluded {
                (m.advanced(), Some(Ok(tile_clusters(d, m.bins))))
            } else if !(row.filter && m.filters.contains_key(row.tile_num)) {
                (m.halted(), Some(Err(BclError::ConfigError)))
            } else {
                let f = m.filters[row.tile_num];
                let c = tile_clusters(d, m.bins);
                if f.len() != c.0.len() {
                    (m.halted(), Some(Err(BclError::FilterSizeMismatch)))
                } else {
                    (m.advanced(), Some(Ok((kept(c.0, f), kept(c.1, f)))))
                }
            }
        }
    }
}

/// The reader after it was handed `chunk`, and what it hands out.
pub open spec fn step(m: ReaderModel, chunk: Seq<u8>) -> (ReaderModel, Outcome) {
    match m.state {
        CbclReaderState::Header => if m.have_preheader {
            step_header(m, chunk)
        } else {
            step_preheader(m, chunk)
        },
        CbclReaderState::Tile => step_tile(m, chunk),
        CbclReaderState::Complete => (m, None),
    }
}

/// The view of what `feed` returned.
pub open spec fn outcome_of(r: Option<Result<BclTile, BclError>>) -> Outcome {
    match r {
        None => None,
        Some(Ok(t)) => Some(Ok((t.bases_seq(), t.quals_seq()))),
        Some(Err(e)) => Some(Err(e)),
    }
}

/// Everything a reader hands out over the bytes `file` within `steps` calls of
/// `feed`, when each chunk it asks for is cut from the front of what is left.
pub open spec fn drain(m: ReaderModel, file: Seq<u8>, steps: nat) -> Seq<Result<TileView, BclError>>
    decreases steps,
{
    if steps == 0 {
        Seq::empty()
    } else {
        match m.wanted() {
            None => Seq::empty(),
            Some(n) => {
                let take = if n <= file.len() {
                    n as int
                } else {
                    file.len() as int
                };
                let next = step(m, file.subrange(0, take));
                let rest = drain(next.0, file.subrange(take, file.len() as int), (steps - 1) as nat);
                match next.1 {
                    None => rest,
                    Some(o) => seq![o] + rest,
                }
            },
        }
    }
}

/// Two readers that differ at most in a tile table that neither will use.
pub open spec fn same_but_tiles(a: ReaderModel, b: ReaderModel) -> bool {
    &&& a.state != CbclReaderState::Tile
    &&& a == (ReaderModel { tiles: a.tiles, ..b })
}

proof fn lemma_drain_ignores_stale_tiles(a: ReaderModel, b: ReaderModel, file: Seq<u8>, steps: nat)
    requires
        same_but_tiles(a, b),
    ensures
        drain(a, file, steps) == drain(b, file, steps),
    decreases steps,
{
    if steps > 0 && a.state == CbclReaderState::Header {
        let n = a.wanted()->Some_0;
        let take = if n <= file.len() {
            n as int
        } else {
            file.len() as int
        };
        let chunk = file.subrange(0, take);
        let na = step(a, chunk);
        let nb = step(b, chunk);
        let rest = file.subrange(take, file.len() as int);
        if a.have_preheader {
            if na.0.state == CbclReaderState::Complete {
                lemma_drain_ignores_stale_tiles(na.0, nb.0, rest, (steps - 1) as nat);
            } else {
                assert(na.0 == nb.0);
            }
        } else {
            lemma_drain_ignores_stale_tiles(na.0, nb.0, rest, (steps - 1) as nat);
        }
    }
}

/// Setting a reader back to the start of a file, keeping its tile table, and
/// then reading a file to its end hands out the same sequence of tiles and
/// errors as a new reader with the same filters.
pub proof fn lemma_reset_reads_like_fresh(m: ReaderModel, file: Seq<u8>, steps: nat)
    ensures
        drain(reset_model(m, false), file, steps) == drain(fresh(m.filters), file, steps),
{
    lemma_drain_ignores_stale_tiles(reset_model(m, false), fresh(m.filters), file, steps);
}

/// A tile block that inflates to the packed clusters `codes` is handed out as
/// those clusters decoded, less the ones that the tile's filter fails.
pub proof fn lemma_tile_round_trip(m: ReaderModel, chunk: Seq<u8>, codes: Seq<u8>)
    requires
        m.wf(),
        m.state == CbclReaderState::Tile,
        chunk.len() == m.tiles[m.n_read as int].block_size_comp,
        codes.len() == 2 * m.tiles[m.n_read as int].block_size_un,
        all_nibbles(codes),
        gzip_inflated(chunk, m.tiles[m.n_read as int].block_size_un as nat) == Some(pack(codes)),
        bins_cover(codes, m.bins),
        !m.tiles[m.n_read as int].pf_excluded ==> {
            &&& m.tiles[m.n_read as int].filter
            &&& m.filters.contains_key(m.tiles[m.n_read as int].tile_num)
            &&& m.filters[m.tiles[m.n_read as int].tile_num].len() == codes.len()
        },
    ensures
        step(m, chunk).1 == Some(
            Ok::<TileView, BclError>(
                if m.tiles[m.n_read as int].pf_excluded {
                    (decoded_bases(codes), decoded_quals(codes, m.bins))
                } else {
                    let f = m.filters[m.tiles[m.n_read as int].tile_num];
                    (kept(decoded_bases(codes), f), kept(decoded_quals(codes, m.bins), f))
                },
            ),
        ),
{
    lemma_nibbles_pack(codes);
}

/// Every tile handed out before filtering holds one base in `A`, `C`, `G`,
/// `T`, `N` and one quality of at least the minimum per cluster, as long as
/// every quality bin is at least that minimum (the first always is).
pub proof fn lemma_tile_calls(d: Seq<u8>, bins: Seq<u8>)
    requires
        bins_cover(nibbles(d), bins),
        forall|j: int| 0 <= j < bins.len() ==> #[trigger] bins[j] >= ILLUMINA_MIN_QUAL,
    ensures
        tile_clusters(d, bins).0.len() == tile_clusters(d, bins).1.len(),
        tile_clusters(d, bins).0.len() == 2 * d.len(),
        forall|i: int|
            0 <= i < tile_clusters(d, bins).0.len() ==> {
                let b = #[trigger] tile_clusters(d, bins).0[i];
                b == 65 || b == 67 || b == 71 || b == 84 || b == 78
            },
        forall|i: int|
            0 <= i < tile_clusters(d, bins).1.len() ==> #[trigger] tile_clusters(d, bins).1[i]
                >= ILLUMINA_MIN_QUAL,
{
    let c = nibbles(d);
    assert forall|i: int| 0 <= i < c.len() implies #[trigger] c[i] <= 254 by {
        let x = d[i / 2];
        assert((x & 15) <= 15 && ((x >> 4) & 15) <= 15) by (bit_vector);
    }
    lemma_decoded_calls(c, bins);
}

/// Twice the inflated sizes of the tiles `from..to`.
pub open spec fn twice_sizes(tiles: Seq<TileData>, from: int, to: int) -> int
    decreases to - from,
{
    if to <= from {
        0
    } else {
        2 * tiles[from].block_size_un + twice_sizes(tiles, from + 1, to)
    }
}

/// The clusters in a run of tiles handed out.
pub open spec fn clusters_out(outs: Seq<Result<TileView, BclError>>) -> int
    decreases outs.len(),
{
    if outs.len() == 0 {
        0
    } else {
        (match outs[0] {
            Ok(t) => t.0.len() as int,
            Err(_) => 0,
        }) + clusters_out(outs.subrange(1, outs.len() as int))
    }
}

/// In a file whose tiles need no filter, the tiles handed out without error
/// hold twice as many clusters as their blocks' inflated sizes add up to.
pub proof fn lemma_cluster_total(m: ReaderModel, file: Seq<u8>, steps: nat)
    requires
        m.wf(),
        m.state == CbclReaderState::Tile,
        forall|k: int| m.n_read <= k < m.tiles.len() ==> (#[trigger] m.tiles[k]).pf_excluded,
        forall|i: int|
            0 <= i < drain(m, file, steps).len() ==> (#[trigger] drain(m, file, steps)[i]) is Ok,
    ensures
        m.n_read + drain(m, file, steps).len() <= m.tiles.len(),
        clusters_out(drain(m, file, steps)) == twice_sizes(
            m.tiles,
            m.n_read as int,
            m.n_read + drain(m, file, steps).len(),
        ),
    decreases steps,
{
    let outs = drain(m, file, steps);
    if steps > 0 {
        let n = m.wanted()->Some_0;
        let take = if n <= file.len() {
            n as int
        } else {
            file.len() as int
        };
        let chunk = file.subrange(0, take);
        let next = step(m, chunk);
        let rest = file.subrange(take, file.len() as int);
        let tail = drain(next.0, rest, (steps - 1) as nat);
        if next.1 is Some {
            assert(outs == seq![next.1->Some_0] + tail);
            assert(outs[0] is Ok);
            assert(outs.subrange(1, outs.len() as int) =~= tail);
            assert forall|i: int| 0 <= i < tail.len() implies (#[trigger] tail[i]) is Ok by {
                assert(tail[i] == outs[i + 1]);
            }
            let row = m.tiles[m.n_read as int];
            let d = gzip_inflated(chunk, row.block_size_un as nat)->Some_0;
            assert(next.0 == m.advanced());
            if next.0.state == CbclReaderState::Tile {
                lemma_cluster_total(next.0, rest, (steps - 1) as nat);
            } else {
                assert(tail.len() == 0);
                assert(clusters_out(tail) == 0);
            }
            assert(twice_sizes(m.tiles, m.n_read + 1, m.n_read + 1 + tail.len()) + 2
                * row.block_size_un == twice_sizes(m.tiles, m.n_read as int, m.n_read + 1 + tail.len()));
        }
    }
}

/// Relies on Vec::shrink_to: it lowers the capacity and keeps the contents.
#[verifier::external_body]
fn shrink_vec(v: &mut Vec<u8>, to: usize)
    ensures
        final(v)@ == old(v)@,
{
    v.shrink_to(to)
}

/// Reads one CBCL file, one requested chunk at a time.
pub struct CBclReader {
    buffer: Vec<u8>,
    decomp_buffer: Vec<u8>,
    header: CBclHeader,
    tile_cache: Vec<TileData>,
    decomp: Decompressor,
    state: CbclReaderState,
    have_preheader: bool,
    n_read: u32,
    filters: FilterCache,
}

impl CBclReader {
    pub closed spec fn view(&self) -> ReaderModel {
        ReaderModel {
            state: self.state,
            have_preheader: self.have_preheader,
            version: self.header.version,
            size: self.header.size,
            bins: self.header.bins@,
            tiles: self.tile_cache@,
            n_read: self.n_read,
            filters: self.filters.view_map(),
        }
    }

    pub open spec fn wf(&self) -> bool {
        self.view().wf()
    }

    /// A reader at the start of a file, with no filters.
    pub fn new() -> (r: CBclReader)
        ensures
            r.view() == fresh(Map::empty()),
            r.wf(),
    {
        Self::with_capacity(DEFAULT_BCL_READER_CAPACITY)
    }

    /// A reader at the start of a file, with no filters, whose buffer reserves
    /// `cap` bytes.
    pub fn with_capacity(cap: usize) -> (r: CBclReader)
        ensures
            r.view() == fresh(Map::empty()),
            r.wf(),
    {
        let r = CBclReader {
            buffer: Vec::with_capacity(cap),
            decomp_buffer: Vec::new(),
            header: CBclHeader::empty(),
            tile_cache: Vec::new(),
            decomp: Decompressor::new(),
            state: CbclReaderState::Header,
            have_preheader: false,
            n_read: 0,
            filters: FilterCache::new(),
        };
        assert(r.header.bins@ =~= Seq::<u8>::empty());
        assert(r.tile_cache@ =~= Seq::<TileData>::empty());
        r
    }

    /// Hands the reader the filter of `tile_num`, for the headers it reads
    /// from now on.
    pub fn add_filter(&mut self, tile_num: u32, filter: Vec<u8>)
        requires
            old(self).wf(),
        ensures
            final(self).view() == (ReaderModel {
                filters: old(self).view().filters.insert(tile_num, filter@),
                ..old(self).view()
            }),
            final(self).wf(),
    {
        self.filters.insert(tile_num, filter);
    }

    /// Sets the reader back to the start of a new file. The buffers keep
    /// their allocations.
    pub fn reset_with(&mut self, clear_tile_cache: bool)
        requires
            old(self).wf(),
        ensures
            final(self).view() == reset_model(old(self).view(), clear_tile_cache),
            final(self).wf(),
    {
        self.buffer.clear();
        self.decomp_buffer.clear();
        self.n_read = 0;
        self.header = CBclHeader::empty();
        if clear_tile_cache {
            self.tile_cache.clear();
        }
        self.state = CbclReaderState::Header;
        self.have_preheader = false;
        assert(self.header.bins@ =~= Seq::<u8>::empty());
        assert(clear_tile_cache ==> self.tile_cache@ =~= Seq::<TileData>::empty());
    }

    /// Lets the buffer of unpacked clusters give back memory down to `to`
    /// bytes; what the reader does next is not affected.
    pub fn shrink_buffer(&mut self, to: usize)
        ensures
            final(self).view() == old(self).view(),
    {
        shrink_vec(&mut self.buffer, to);
    }

    /// Lets the buffer of inflated bytes give back memory down to `to` bytes;
    /// what the reader does next is not affected.
    pub fn shrink_decomp_buff(&mut self, to: usize)
        ensures
            final(self).view() == old(self).view(),
    {
        shrink_vec(&mut self.decomp_buffer, to);
    }

    /// The tile table of the file being read.
    pub fn tile_cache(&self) -> (r: &Vec<TileData>)
        ensures
            r@ == self.view().tiles,
    {
        &self.tile_cache
    }

    /// How many tiles were handed out from the file being read.
    pub fn n_read(&self) -> (r: u32)
        ensures
            r == self.view().n_read,
    {
        self.n_read
    }

    /// The version and header size that the file's first six bytes gave.
    pub fn header(&self) -> (r: &CBclHeader)
        ensures
            r.version == self.view().version,
            r.size == self.view().size,
            r.bins@ == self.view().bins,
    {
        &self.header
    }

    pub fn state(&self) -> (r: CbclReaderState)
        ensures
            r == self.view().state,
    {
        self.state
    }

    /// How many bytes the reader needs next; `None` once it is complete.
    pub fn wanted(&self) -> (r: Option<u32>)
        requires
            self.wf(),
        ensures
            r == self.view().wanted(),
    {
        match self.state {
            CbclReaderState::Header => if self.have_preheader {
                Some(self.header.size - PREHEADER_SIZE)
            } else {
                Some(PREHEADER_SIZE)
            },
            CbclReaderState::Tile => Some(self.tile_cache[self.n_read as usize].block_size_comp),
            CbclReaderState::Complete => None,
        }
    }

    /// The stream failed: the reader stops and reports it.
    pub fn fail_io(&mut self) -> (r: BclError)
        requires
            old(self).wf(),
        ensures
            r == BclError::IoError,
            final(self).view() == old(self).view().halted(),
            final(self).wf(),
    {
        self.state = CbclReaderState::Complete;
        self.have_preheader = false;
        BclError::IoError
    }

    /// Hands the reader the bytes it asked for (fewer where the file ended):
    /// it answers with a tile, an error after which it is complete, or nothing
    /// while it is still reading the header.
    pub fn feed(&mut self, chunk: &[u8]) -> (r: Option<Result<BclTile, BclError>>)
        requires
            old(self).wf(),
        ensures
            (final(self).view(), outcome_of(r)) == step(old(self).view(), chunk@),
            final(self).wf(),
            r matches Some(Ok(t)) ==> t.wf(),
    {
        match self.state {
            CbclReaderState::Header => if self.have_preheader {
                self.read_header(chunk)
            } else {
                self.read_preheader(chunk)
            },
            CbclReaderState::Tile => self.read_tile(chunk),
            CbclReaderState::Complete => None,
        }
    }

    fn read_preheader(&mut self, chunk: &[u8]) -> (r: Option<Result<BclTile, BclError>>)
        requires
            old(self).wf(),
            old(self).view().state == CbclReaderState::Header,
            !old(self).view().have_preheader,
        ensures
            (final(self).view(), outcome_of(r)) == step_preheader(old(self).view(), chunk@),
            final(self).wf(),
    {
        match parse_preheader(chunk) {
            Err(_) => self.halt(BclError::EofError),
            Ok((version, size)) => {
                if size < PREHEADER_SIZE {
                    return self.halt(
                        BclError::ParseError {
                            stage: ParseStage::Preheader,
                            kind: ParseKind::BadRecord,
                        },
                    );
                }
                self.header.version = version;
                self.header.size = size;
                self.have_preheader = true;
                None
            },
        }
    }

    /// Read the rest of the header, including the tile table.
    fn read_header(&mut self, chunk: &[u8]) -> (r: Option<Result<BclTile, BclError>>)
        requires
            old(self).wf(),
            old(self).view().state == CbclReaderState::Header,
            old(self).view().have_preheader,
        ensures
            (final(self).view(), outcome_of(r)) == step_header(old(self).view(), chunk@),
            final(self).wf(),
    {
        if chunk.len() != (self.header.size - PREHEADER_SIZE) as usize {
            return self.halt(BclError::EofError);
        }
        let raw = match parse_rest_of_header(chunk) {
            Ok(raw) => raw,
            Err(e) => {
                return self.halt(e);
            },
        };
        let pf_excluded = raw.non_pf_excluded == 1;
        let ghost pf_flag = raw.non_pf_excluded;
        let n_tiles = raw.n_tiles;
        let mut tiles: Vec<TileData> = Vec::with_capacity(n_tiles as usize);
        let mut k: usize = 0;
        while k < raw.tile_rows.len()
            invariant
                raw.describes(chunk@),
                rest_fits(chunk@),
                pf_excluded == (pf_flag == 1),
                pf_flag == chunk@[pf_flag_pos(chunk@)],
                k <= raw.tile_rows@.len(),
                tiles@ == Seq::new(
                    k as nat,
                    |j: int|
                        tile_entry(
                            tile_row_at(chunk@, tile_table_pos(chunk@) + 16 * j),
                            pf_flag,
                            self.filters.view_map(),
                        ),
                ),
            decreases raw.tile_rows@.len() - k,
        {
            let row = raw.tile_rows[k];
            let entry = TileData {
                tile_num: row.0,
                num_clusters: row.1,
                block_size_un: row.2,
                block_size_comp: row.3,
                pf_excluded,
                filter: self.filters.contains(row.0),
            };
            tiles.push(entry);
            k = k + 1;
            assert(tiles@ =~= Seq::new(
                k as nat,
                |j: int|
                    tile_entry(
                        tile_row_at(chunk@, tile_table_pos(chunk@) + 16 * j),
                        pf_flag,
                        self.filters.view_map(),
                    ),
            ));
        }
        self.header.bits_per_bc = raw.bits_per_bc;
        self.header.bits_per_qs = raw.bits_per_qs;
        self.header.n_bins = raw.n_bins;
        self.header.bins = into_bin_lookup(raw.bin_pairs);
        self.header.n_tiles = n_tiles;
        assert(raw.n_bins == 0 ==> self.header.bins@ =~= Seq::<u8>::empty());
        self.tile_cache = tiles;
        self.n_read = 0;
        self.have_preheader = false;
        self.state = if n_tiles == 0 {
            CbclReaderState::Complete
        } else {
            CbclReaderState::Tile
        };
        None
    }

    /// Read one tile block: inflate it, unpack its nibbles, decode them and
    /// apply the tile's filter where the file did not.
    pub fn read_tile(&mut self, chunk: &[u8]) -> (r: Option<Result<BclTile, BclError>>)
        requires
            old(self).wf(),
            old(self).view().state == CbclReaderState::Tile,
        ensures
            (final(self).view(), outcome_of(r)) == step_tile(old(self).view(), chunk@),
            final(self).wf(),
            r matches Some(Ok(t)) ==> t.wf(),
    {
        let ghost m = self.view();
        let tile_data: TileData = self.tile_cache[self.n_read as usize];
        if chunk.len() != tile_data.block_size_comp as usize {
            return self.halt(
                BclError::CompSizeMismatch {
                    expected: tile_data.block_size_comp,
                    got: chunk.len(),
                },
            );
        }
        let un: usize = tile_data.block_size_un as usize;
        self.decomp_buffer.clear();
        self.decomp_buffer.resize(un, 0);
        match gzip_into(&mut self.decomp, chunk, &mut self.decomp_buffer) {
            Ok(n) => {
                if n != un {
                    return self.halt(BclError::DecompSizeMismatch);
                }
            },
            Err(_) => {
                return self.halt(BclError::DecompressError);
            },
        }
        let ghost d = self.decomp_buffer@;
        assert(d.subrange(0, un as int) =~= d);
        self.buffer.clear();
        expand_nibbles(self.decomp_buffer.as_slice(), &mut self.buffer);
        assert(self.buffer@ =~= nibbles(d));
        let mut tile = match decode_tile_payload(self.buffer.as_slice(), self.header.bins.as_slice()) {
            Ok(t) => t,
            Err(e) => {
                return self.halt(e);
            },
        };
        if !tile_data.pf_excluded {
            match tile_data.get_or_read_filter(&self.filters) {
                None => {
                    return self.halt(BclError::ConfigError);
                },
                Some(filter) => {
                    if filter_reads(&mut tile, filter.as_slice()).is_err() {
                        return self.halt(BclError::FilterSizeMismatch);
                    }
                },
            }
        }
        self.n_read = self.n_read + 1;
        if self.n_read as usize == self.tile_cache.len() {
            self.state = CbclReaderState::Complete;
        }
        self.buffer.clear();
        self.decomp_buffer.clear();
        Some(Ok(tile))
    }

    fn halt(&mut self, e: BclError) -> (r: Option<Result<BclTile, BclError>>)
        requires
            old(self).wf(),
        ensures
            final(self).view() == old(self).view().halted(),
            final(self).wf(),
            outcome_of(r) == Some(Err::<TileView, BclError>(e)),
    {
        self.state = CbclReaderState::Complete;
        self.have_preheader = false;
        Some(Err(e))
    }
}

} // verus!
