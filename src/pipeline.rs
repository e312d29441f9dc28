//! The units of work that flow through the pipeline: tiles on their way to
//! the demultiplexer, and the records it sends to the writers.
use vstd::prelude::*;
use vstd::string::*;

use crate::cbcl::BclTile;
use crate::error::BclError;
use crate::reader::{reset_model, CBclReader, TileData};
use crate::samplesheet::{OverrideCycle, SampleSheetError};
use crate::seqdir::{Bcl, SeqDirError};

verus! {

/// Errors of the whole program.
#[derive(Debug)]
pub enum IlluvatarError {
    SampleSheetError(SampleSheetError),
    SeqDirError(SeqDirError),
    IoError(String),
    Noop,
}

/// One tile of one cycle, with what is known of where it came from.
#[derive(Debug)]
pub struct DemuxUnit {
    pub tile_data: TileData,
    pub tile: BclTile,
    pub cycle: u16,
    pub lane: u8,
}

/// One record for a writer: the destination is the key of its sink.
#[derive(Debug)]
pub struct WriteRecord {
    pub destination: String,
    pub id: String,
    pub reads: Vec<u8>,
    pub quals: Vec<u8>,
}

/// Makes `reader` ready for the file `bcl`: a CBCL sets it back to the start,
/// keeping its tile table; a legacy BCL is refused and the reader left alone.
pub fn begin_file(reader: &mut CBclReader, bcl: &Bcl) -> (r: Result<(), BclError>)
    requires
        old(reader).wf(),
    ensures
        bcl is Bcl ==> r == Err::<(), BclError>(BclError::UnsupportedFormat) && final(reader).view()
            == old(reader).view(),
        bcl is CBcl ==> r is Ok && final(reader).view() == reset_model(old(reader).view(), false),
        final(reader).wf(),
{
    match bcl {
        Bcl::Bcl(_) => Err(BclError::UnsupportedFormat),
        Bcl::CBcl(_) => {
            reader.reset_with(false);
            Ok(())
        },
    }
}

/// The decimal digits of `n`.
pub open spec fn decimal_text(n: nat) -> Seq<char>
    decreases n,
{
    if n < 10 {
        seq![digit_char(n)]
    } else {
        decimal_text(n / 10).push(digit_char(n % 10))
    }
}

pub open spec fn digit_char(d: nat) -> char {
    if d == 0 {
        '0'
    } else if d == 1 {
        '1'
    } else if d == 2 {
        '2'
    } else if d == 3 {
        '3'
    } else if d == 4 {
        '4'
    } else if d == 5 {
        '5'
    } else if d == 6 {
        '6'
    } else if d == 7 {
        '7'
    } else if d == 8 {
        '8'
    } else {
        '9'
    }
}

fn digit_str(d: u64) -> (r: &'static str)
    requires
        d < 10,
    ensures
        r@ == seq![digit_char(d as nat)],
{
    proof {
        reveal_strlit("0");
        reveal_strlit("1");
        reveal_strlit("2");
        reveal_strlit("3");
        reveal_strlit("4");
        reveal_strlit("5");
        reveal_strlit("6");
        reveal_strlit("7");
        reveal_strlit("8");
        reveal_strlit("9");
    }
    if d == 0 {
        "0"
    } else if d == 1 {
        "1"
    } else if d == 2 {
        "2"
    } else if d == 3 {
        "3"
    } else if d == 4 {
        "4"
    } else if d == 5 {
        "5"
    } else if d == 6 {
        "6"
    } else if d == 7 {
        "7"
    } else if d == 8 {
        "8"
    } else {
        "9"
    }
}

/// Appends the decimal digits of `n` to `out`.
pub fn push_decimal(out: &mut String, n: u64)
    ensures
        final(out)@ == old(out)@ + decimal_text(n as nat),
    decreases n,
{
    if n >= 10 {
        push_decimal(out, n / 10);
    }
    out.append(digit_str(n % 10));
    proof {
        if n >= 10 {
            assert(old(out)@ + decimal_text(n as nat) =~= old(out)@ + decimal_text((n / 10) as nat)
                + seq![digit_char((n % 10) as nat)]);
        } else {
            assert(n % 10 == n);
        }
    }
}

/// The record id of cluster `i` of tile `tile_num` in lane `lane`:
/// `L<lane>:<tile_num>:<i>`.
pub open spec fn record_id(lane: u8, tile_num: u32, i: nat) -> Seq<char> {
    seq!['L'] + decimal_text(lane as nat) + seq![':'] + decimal_text(tile_num as nat) + seq![':']
        + decimal_text(i)
}

fn make_id(lane: u8, tile_num: u32, i: u64) -> (r: String)
    ensures
        r@ == record_id(lane, tile_num, i as nat),
{
    let mut id = "L".to_owned();
    proof {
        reveal_strlit("L");
        reveal_strlit(":");
    }
    push_decimal(&mut id, lane as u64);
    id.append(":");
    push_decimal(&mut id, tile_num as u64);
    id.append(":");
    push_decimal(&mut id, i);
    assert(id@ =~= record_id(lane, tile_num, i as nat));
    id
}

/// The letter of a segment kind in a sink key: `R` for a sequencing read,
/// `I` for an index, `U` for a UMI.
pub open spec fn segment_letter(run: OverrideCycle) -> char {
    match run {
        OverrideCycle::Y(_) => 'R',
        OverrideCycle::I(_) => 'I',
        OverrideCycle::U(_) => 'U',
        OverrideCycle::N(_) => 'N',
    }
}

/// The sink key of a segment: the sample, the lane unless lanes are merged,
/// then the segment's letter and the number of its read, counted from 1.
pub open spec fn destination_text(sample: Seq<char>, lane: u8, merge_lanes: bool, read: nat, run: OverrideCycle) -> Seq<char> {
    sample + (if merge_lanes {
        Seq::empty()
    } else {
        seq!['_', 'L', '0', '0'] + decimal_text(lane as nat)
    }) + seq!['_', segment_letter(run)] + decimal_text(read + 1)
}

/// Where the clusters of a cycle go, given the read and run that the cycle
/// belongs to: nowhere for a trimmed run or a cycle past the last run.
pub fn destination_for(
    sample: &str,
    lane: u8,
    merge_lanes: bool,
    role: Option<(usize, OverrideCycle)>,
) -> (r: Option<String>)
    requires
        role matches Some((read, _)) ==> read < usize::MAX,
    ensures
        match role {
            None => r is None,
            Some((_, OverrideCycle::N(_))) => r is None,
            Some((read, run)) => r matches Some(d) && d@ == destination_text(
                sample@,
                lane,
                merge_lanes,
                read as nat,
                run,
            ),
        },
{
    let (read, run) = match role {
        None => {
            return None;
        },
        Some(x) => x,
    };
    let letter: &str = match run {
        OverrideCycle::N(_) => {
            return None;
        },
        OverrideCycle::Y(_) => "_R",
        OverrideCycle::I(_) => "_I",
        OverrideCycle::U(_) => "_U",
    };
    proof {
        reveal_strlit("_R");
        reveal_strlit("_I");
        reveal_strlit("_U");
        reveal_strlit("_L00");
    }
    let mut d = sample.to_owned();
    if !merge_lanes {
        d.append("_L00");
        push_decimal(&mut d, lane as u64);
    }
    d.append(letter);
    push_decimal(&mut d, read as u64 + 1);
    let ghost lane_part = if merge_lanes {
        Seq::<char>::empty()
    } else {
        seq!['_', 'L', '0', '0'] + decimal_text(lane as nat)
    };
    assert(d@ =~= destination_text(sample@, lane, merge_lanes, read as nat, run));
    Some(d)
}

/// Turns a unit into one record per cluster, each holding that cluster's
/// base and quality for this cycle, all sent to `destination`.
pub fn resolve_tile(unit: &DemuxUnit, destination: &str) -> (r: Vec<WriteRecord>)
    requires
        unit.tile.wf(),
    ensures
        r@.len() == unit.tile.bases_seq().len(),
        forall|i: int|
            0 <= i < r@.len() ==> {
                &&& (#[trigger] r@[i]).destination@ == destination@
                &&& r@[i].id@ == record_id(unit.lane, unit.tile_data.tile_num, i as nat)
                &&& r@[i].reads@ == seq![unit.tile.bases_seq()[i]]
                &&& r@[i].quals@ == seq![unit.tile.quals_seq()[i]]
            },
{
    let bases = unit.tile.get_bases();
    let quals = unit.tile.get_quals();
    let mut out: Vec<WriteRecord> = Vec::new();
    let mut i: usize = 0;
    while i < bases.len()
        invariant
            bases@ == unit.tile.bases_seq(),
            quals@ == unit.tile.quals_seq(),
            bases@.len() == quals@.len(),
            i <= bases@.len(),
            out@.len() == i,
            forall|j: int|
                0 <= j < i ==> {
                    &&& (#[trigger] out@[j]).destination@ == destination@
                    &&& out@[j].id@ == record_id(unit.lane, unit.tile_data.tile_num, j as nat)
                    &&& out@[j].reads@ == seq![unit.tile.bases_seq()[j]]
                    &&& out@[j].quals@ == seq![unit.tile.quals_seq()[j]]
                },
        decreases bases@.len() - i,
    {
        let mut reads: Vec<u8> = Vec::new();
        reads.push(bases[i]);
        let mut qs: Vec<u8> = Vec::new();
        qs.push(quals[i]);
        assert(reads@ =~= seq![unit.tile.bases_seq()[i as int]]);
        assert(qs@ =~= seq![unit.tile.quals_seq()[i as int]]);
        out.push(
            WriteRecord {
                destination: destination.to_owned(),
                id: make_id(unit.lane, unit.tile_data.tile_num, i as u64),
                reads,
                quals: qs,
            },
        );
        i = i + 1;
    }
    out
}

} // verus!
