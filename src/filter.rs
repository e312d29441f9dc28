//! Filter files, which mark each cluster of a tile as passing (1) or failing
//! (0) the chastity filter, and their application to a tile.
use std::collections::HashMap;
use vstd::prelude::*;

use crate::cbcl::{read_u32_le, u32_at, BclTile};
use crate::error::BclError;

verus! {

/// Bytes of a filter file before its payload: reserved, version, cluster count.
pub const FILTER_HEADER_SIZE: usize = 12;

/// The entries of `s` whose filter entry is 1, in their order.
pub open spec fn kept(s: Seq<u8>, filter: Seq<u8>) -> Seq<u8>
    decreases s.len(),
{
    if s.len() == 0 {
        Seq::empty()
    } else {
        let rest = kept(s.drop_last(), filter.subrange(0, s.len() - 1));
        if filter[s.len() - 1] == 1 {
            rest.push(s.last())
        } else {
            rest
        }
    }
}

/// How many entries of `filter` pass.
pub open spec fn passing(filter: Seq<u8>) -> nat
    decreases filter.len(),
{
    if filter.len() == 0 {
        0
    } else {
        passing(filter.drop_last()) + if filter.last() == 1 {
            1nat
        } else {
            0nat
        }
    }
}

proof fn lemma_kept_len(s: Seq<u8>, filter: Seq<u8>)
    requires
        s.len() <= filter.len(),
    ensures
        kept(s, filter).len() == passing(filter.subrange(0, s.len() as int)),
        kept(s, filter).len() <= s.len(),
    decreases s.len(),
{
    if s.len() > 0 {
        let f = filter.subrange(0, s.len() as int);
        lemma_kept_len(s.drop_last(), filter.subrange(0, s.len() - 1));
        assert(filter.subrange(0, s.len() - 1).subrange(0, s.len() - 1) =~= f.drop_last());
    } else {
        assert(filter.subrange(0, 0) =~= Seq::<u8>::empty());
    }
}

proof fn lemma_kept_step(s: Seq<u8>, filter: Seq<u8>, i: int)
    requires
        0 <= i < s.len(),
        s.len() <= filter.len(),
    ensures
        kept(s.subrange(0, i + 1), filter) == if filter[i] == 1 {
            kept(s.subrange(0, i), filter).push(s[i])
        } else {
            kept(s.subrange(0, i), filter)
        },
{
    assert(s.subrange(0, i + 1).drop_last() =~= s.subrange(0, i));
    lemma_kept_prefix_filter(s.subrange(0, i), filter.subrange(0, i), filter);
}

/// Only the first `s.len()` entries of the filter matter.
proof fn lemma_kept_prefix_filter(s: Seq<u8>, f1: Seq<u8>, f2: Seq<u8>)
    requires
        s.len() <= f1.len(),
        s.len() <= f2.len(),
        forall|j: int| 0 <= j < s.len() ==> f1[j] == f2[j],
    ensures
        kept(s, f1) == kept(s, f2),
    decreases s.len(),
{
    if s.len() > 0 {
        let n = s.len() - 1;
        lemma_kept_prefix_filter(s.drop_last(), f1.subrange(0, n), f2.subrange(0, n));
    }
}

/// Keeps, in place and in order, the entries of `v` whose filter entry is 1.
fn compact(v: &mut Vec<u8>, filter: &[u8])
    requires
        old(v)@.len() == filter@.len(),
    ensures
        final(v)@ == kept(old(v)@, filter@),
{
    let n: usize = v.len();
    let ghost orig = old(v)@;
    let mut w: usize = 0;
    let mut i: usize = 0;
    while i < n
        invariant
            n == orig.len(),
            n == filter@.len(),
            v@.len() == n,
            w <= i <= n,
            v@.subrange(0, w as int) == kept(orig.subrange(0, i as int), filter@),
            v@.subrange(i as int, n as int) == orig.subrange(i as int, n as int),
        decreases n - i,
    {
        proof {
            lemma_kept_step(orig, filter@, i as int);
            lemma_kept_len(orig.subrange(0, i as int), filter@);
            assert(v@[i as int] == orig[i as int]) by {
                assert(v@.subrange(i as int, n as int)[0] == orig.subrange(i as int, n as int)[0]);
            }
        }
        let ghost pre = v@;
        if filter[i] == 1 {
            let x = v[i];
            v.set(w, x);
            w = w + 1;
            assert(v@.subrange(0, w as int) =~= kept(orig.subrange(0, i as int), filter@).push(x));
        }
        i = i + 1;
        assert forall|k: int| i <= k < n implies v@[k] == orig[k] by {
            assert(pre.subrange(i - 1, n as int)[k - (i - 1)] == orig.subrange(i - 1, n as int)[k
                - (i - 1)]);
        }
        assert(v@.subrange(i as int, n as int) =~= orig.subrange(i as int, n as int));
    }
    v.truncate(w);
    assert(orig.subrange(0, n as int) =~= orig);
    assert(v@ =~= kept(orig, filter@));
}

/// Keeps the clusters of the tile that pass the filter, bases and qualities
/// alike. A filter of another length than the tile is refused and the tile is
/// left as it was.
pub fn filter_reads(tile: &mut BclTile, filter: &[u8]) -> (r: Result<(), BclError>)
    requires
        old(tile).wf(),
    ensures
        r is Ok <==> old(tile).bases_seq().len() == filter@.len(),
        r is Err ==> r == Err::<(), BclError>(BclError::FilterSizeMismatch) && *final(tile)
            == *old(tile),
        r is Ok ==> final(tile).bases_seq() == kept(old(tile).bases_seq(), filter@),
        r is Ok ==> final(tile).quals_seq() == kept(old(tile).quals_seq(), filter@),
        r is Ok ==> final(tile).bases_seq().len() == passing(filter@),
        final(tile).wf(),
{
    if tile.get_bases().len() != filter.len() {
        return Err(BclError::FilterSizeMismatch);
    }
    let (bases, quals) = tile.columns_mut();
    compact(bases, filter);
    compact(quals, filter);
    proof {
        lemma_kept_len(old(tile).bases_seq(), filter@);
        lemma_kept_len(old(tile).quals_seq(), filter@);
        assert(filter@.subrange(0, filter@.len() as int) =~= filter@);
    }
    Ok(())
}

/// The bytes of a filter file, handed over whole.
pub struct FilterFileReader {
    buffer: Vec<u8>,
}

impl FilterFileReader {
    /// The file's bytes.
    pub closed spec fn bytes(&self) -> Seq<u8> {
        self.buffer@
    }

    /// A reader over the whole content of one filter file.
    pub fn from_bytes(buffer: Vec<u8>) -> (r: FilterFileReader)
        ensures
            r.bytes() == buffer@,
    {
        FilterFileReader { buffer }
    }

    /// The pass/fail byte of each cluster. A file shorter than its header ends
    /// early; a payload whose length is not the header's cluster count is
    /// refused.
    pub fn read_filter(&mut self) -> (r: Result<Vec<u8>, BclError>)
        ensures
            final(self).bytes() == old(self).bytes(),
            old(self).bytes().len() < 12 ==> r == Err::<Vec<u8>, BclError>(BclError::EofError),
            old(self).bytes().len() >= 12 && u32_at(old(self).bytes(), 8) != old(self).bytes().len()
                - 12 ==> r == Err::<Vec<u8>, BclError>(BclError::FilterSizeMismatch),
            r is Ok <==> old(self).bytes().len() >= 12 && u32_at(old(self).bytes(), 8)
                == old(self).bytes().len() - 12,
            r matches Ok(f) ==> f@ == old(self).bytes().subrange(12, old(self).bytes().len() as int),
    {
        let n: usize = self.buffer.len();
        if n < FILTER_HEADER_SIZE {
            return Err(BclError::EofError);
        }
        let num_clusters = read_u32_le(self.buffer.as_slice(), 8);
        if num_clusters as usize != n - FILTER_HEADER_SIZE {
            return Err(BclError::FilterSizeMismatch);
        }
        let mut filter: Vec<u8> = Vec::with_capacity(n - FILTER_HEADER_SIZE);
        let mut i: usize = FILTER_HEADER_SIZE;
        while i < n
            invariant
                n == self.buffer@.len(),
                FILTER_HEADER_SIZE <= i <= n,
                filter@ == self.buffer@.subrange(12, i as int),
            decreases n - i,
        {
            filter.push(self.buffer[i]);
            i = i + 1;
            assert(filter@ =~= self.buffer@.subrange(12, i as int));
        }
        Ok(filter)
    }
}

/// The filters of one lane, keyed by tile number.
pub struct FilterCache {
    filters: HashMap<u32, Vec<u8>>,
}

impl FilterCache {
    /// The filter held for each tile number.
    pub closed spec fn view_map(&self) -> Map<u32, Seq<u8>> {
        self.filters@.map_values(|f: Vec<u8>| f@)
    }

    /// A cache that holds no filter.
    pub fn new() -> (r: FilterCache)
        ensures
            r.view_map() == Map::<u32, Seq<u8>>::empty(),
    {
        let r = FilterCache { filters: HashMap::new() };
        assert(r.view_map() =~= Map::<u32, Seq<u8>>::empty());
        r
    }

    /// Holds `filter` for `tile_num`, in place of any earlier one.
    pub fn insert(&mut self, tile_num: u32, filter: Vec<u8>)
        ensures
            final(self).view_map() == old(self).view_map().insert(tile_num, filter@),
    {
        broadcast use vstd::std_specs::hash::group_hash_axioms;

        self.filters.insert(tile_num, filter);
        assert(self.view_map() =~= old(self).view_map().insert(tile_num, filter@));
    }

    /// Whether a filter is held for `tile_num`.
    pub fn contains(&self, tile_num: u32) -> (r: bool)
        ensures
            r == self.view_map().contains_key(tile_num),
    {
        broadcast use vstd::std_specs::hash::group_hash_axioms;

        self.filters.contains_key(&tile_num)
    }

    /// The filter held for `tile_num`, if any.
    pub fn get(&self, tile_num: u32) -> (r: Option<&Vec<u8>>)
        ensures
            r is Some <==> self.view_map().contains_key(tile_num),
            r matches Some(f) ==> f@ == self.view_map()[tile_num],
    {
        broadcast use vstd::std_specs::hash::group_hash_axioms;

        self.filters.get(&tile_num)
    }
}

} // verus!
