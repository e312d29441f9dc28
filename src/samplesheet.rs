//! The sample-sheet records that the demultiplexer consumes, and the checks
//! made on them.
use vstd::prelude::*;
use vstd::string::*;

use crate::seqdir::{decimal, is_digit, lemma_decimal_grows};

verus! {

/// Default of the `MaskShortReads` setting.
pub const DEFAULT_MASK_SHORT_READS: u16 = 22;

pub fn default_mask_short_reads() -> (r: u16)
    ensures
        r == DEFAULT_MASK_SHORT_READS,
{
    DEFAULT_MASK_SHORT_READS
}

/// How FASTQ output is compressed.
#[derive(Debug, Clone, Copy, PartialEq, Eq, Structural)]
pub enum CompressionFormat {
    Gzip,
    Dragen,
    DragenInterleaved,
}

impl Default for CompressionFormat {
    fn default() -> (r: CompressionFormat)
        ensures
            r == CompressionFormat::Gzip,
    {
        CompressionFormat::Gzip
    }
}

/// `Mask` replaces adapter bases with `N`s; `Trim` removes them.
#[derive(Debug, Clone, Copy, PartialEq, Eq, Structural)]
pub enum AdapterBehavior {
    Mask,
    Trim,
}

impl Default for AdapterBehavior {
    fn default() -> (r: AdapterBehavior)
        ensures
            r == AdapterBehavior::Trim,
    {
        AdapterBehavior::Trim
    }
}

/// The least overlap with an adapter that is acted upon.
#[derive(Debug, Clone, Copy, PartialEq, Eq, Structural)]
pub enum MinAdapterOlap {
    One,
    Two,
    Three,
}

impl Default for MinAdapterOlap {
    fn default() -> (r: MinAdapterOlap)
        ensures
            r == MinAdapterOlap::One,
    {
        MinAdapterOlap::One
    }
}

impl MinAdapterOlap {
    /// The overlap as a number of bases.
    pub fn bases(&self) -> (r: u8)
        ensures
            r == match self {
                MinAdapterOlap::One => 1u8,
                MinAdapterOlap::Two => 2u8,
                MinAdapterOlap::Three => 3u8,
            },
    {
        match self {
            MinAdapterOlap::One => 1,
            MinAdapterOlap::Two => 2,
            MinAdapterOlap::Three => 3,
        }
    }
}

/// The version of a sample sheet's format.
#[derive(Debug, Clone, Copy, PartialEq, Eq, Structural)]
pub enum SampleSheetVersion {
    V1,
    V2,
}

impl Default for SampleSheetVersion {
    fn default() -> (r: SampleSheetVersion)
        ensures
            r == SampleSheetVersion::V1,
    {
        SampleSheetVersion::V1
    }
}

impl SampleSheetVersion {
    /// The version with number `n`, if there is one.
    pub fn from_number(n: u64) -> (r: Option<SampleSheetVersion>)
        ensures
            n == 1 ==> r == Some(SampleSheetVersion::V1),
            n == 2 ==> r == Some(SampleSheetVersion::V2),
            n != 1 && n != 2 ==> r is None,
    {
        if n == 1 {
            Some(SampleSheetVersion::V1)
        } else if n == 2 {
            Some(SampleSheetVersion::V2)
        } else {
            None
        }
    }
}

/// A run of cycles in an `OverrideCycles` setting: index (`I`), sequencing
/// read (`Y`), UMI (`U`) or trimmed (`N`), with its length.
#[derive(Debug, Clone, Copy, PartialEq, Eq, Structural)]
pub enum OverrideCycle {
    I(u8),
    Y(u8),
    U(u8),
    N(u8),
}

impl std::str::FromStr for OverrideCycle {
    type Err = SampleSheetError;

    fn from_str(s: &str) -> Result<OverrideCycle, SampleSheetError> {
        match override_cycle(s) {
            Some(c) => Ok(c),
            None => Err(SampleSheetError::ParseError("Failed to parse OverrideCycle".to_owned())),
        }
    }
}

impl std::str::FromStr for OverrideCycles {
    type Err = SampleSheetError;

    fn from_str(s: &str) -> Result<OverrideCycles, SampleSheetError> {
        OverrideCycles::parse(s)
    }
}

/// What can be wrong with a sample sheet.
#[derive(Debug, Clone, PartialEq, Eq)]
pub enum SampleSheetError {
    IoError(String),
    DeserializeError(String),
    EofError,
    ParseError(String),
    UnknownCycleKind(char),
    ParseIntError,
    BadSectionFormat(String, String),
    MissingSection(String),
}

impl OverrideCycle {
    /// The run of kind `kind` (one of `I`, `Y`, `U`, `N`) and length `count`.
    pub fn from_kind(kind: char, count: u8) -> (r: Result<OverrideCycle, SampleSheetError>)
        ensures
            kind == 'I' ==> r == Ok::<OverrideCycle, SampleSheetError>(OverrideCycle::I(count)),
            kind == 'Y' ==> r == Ok::<OverrideCycle, SampleSheetError>(OverrideCycle::Y(count)),
            kind == 'U' ==> r == Ok::<OverrideCycle, SampleSheetError>(OverrideCycle::U(count)),
            kind == 'N' ==> r == Ok::<OverrideCycle, SampleSheetError>(OverrideCycle::N(count)),
            kind != 'I' && kind != 'Y' && kind != 'U' && kind != 'N' ==> r
                == Err::<OverrideCycle, SampleSheetError>(SampleSheetError::UnknownCycleKind(kind)),
    {
        match kind {
            'I' => Ok(OverrideCycle::I(count)),
            'Y' => Ok(OverrideCycle::Y(count)),
            'U' => Ok(OverrideCycle::U(count)),
            'N' => Ok(OverrideCycle::N(count)),
            otherwise => Err(SampleSheetError::UnknownCycleKind(otherwise)),
        }
    }

    /// A run that holds a sequence of its own: a read or an index.
    pub open spec fn holds_sequence(self) -> bool {
        self is I || self is Y
    }
}

/// How many runs of `read` are reads or indices.
pub open spec fn sequence_runs(read: Seq<OverrideCycle>) -> nat
    decreases read.len(),
{
    if read.len() == 0 {
        0
    } else {
        sequence_runs(read.drop_last()) + if read.last().holds_sequence() {
            1nat
        } else {
            0nat
        }
    }
}

/// Each read holds exactly one read or index run.
pub open spec fn cycles_valid(cycles: Seq<Seq<OverrideCycle>>) -> bool {
    forall|r: int| 0 <= r < cycles.len() ==> sequence_runs(#[trigger] cycles[r]) == 1
}

/// The reads of an `OverrideCycles` setting, one list of runs per read.
#[derive(Debug, PartialEq)]
pub struct OverrideCycles {
    cycles: Vec<Vec<OverrideCycle>>,
}

impl OverrideCycles {
    /// The runs of each read.
    pub closed spec fn reads(&self) -> Seq<Seq<OverrideCycle>> {
        self.cycles@.map_values(|r: Vec<OverrideCycle>| r@)
    }

    /// The setting made of `cycles`, when each read holds exactly one read or
    /// index run.
    pub fn from_reads(cycles: Vec<Vec<OverrideCycle>>) -> (r: Result<OverrideCycles, SampleSheetError>)
        ensures
            r is Ok <==> cycles_valid(cycles@.map_values(|c: Vec<OverrideCycle>| c@)),
            r matches Ok(o) ==> o.reads() == cycles@.map_values(|c: Vec<OverrideCycle>| c@),
    {
        match validate_cycles(&cycles) {
            Ok(()) => Ok(OverrideCycles { cycles }),
            Err(e) => Err(e),
        }
    }

    /// Reads and checks an `OverrideCycles` setting.
    pub fn parse(s: &str) -> (r: Result<OverrideCycles, SampleSheetError>)
        ensures
            r is Ok <==> (override_reads(s@) matches Some(c) && cycles_valid(c)),
            r matches Ok(o) ==> Some(o.reads()) == override_reads(s@),
    {
        match override_cycles(s) {
            None => Err(SampleSheetError::ParseError("Unable to parse OverrideCycles".to_owned())),
            Some(cycles) => OverrideCycles::from_reads(cycles),
        }
    }

    /// Which read and which run of it the sequencing cycle `cycle` (counted
    /// from 1) belongs to; `None` past the last run.
    pub fn role_of_cycle(&self, cycle: u16) -> (r: Option<(usize, OverrideCycle)>)
        requires
            cycle >= 1,
        ensures
            r matches Some((i, run)) ==> locate(flat_runs(self.reads()), cycle - 1) == Some(
                (i as int, run),
            ),
            r is None ==> locate(flat_runs(self.reads()), cycle - 1) is None,
    {
        let flat = flatten_runs(&self.cycles);
        let ghost fv = flat@.map_values(|p: (usize, OverrideCycle)| (p.0 as int, p.1));
        assert(self.reads() == self.cycles@.map_values(|r: Vec<OverrideCycle>| r@));
        let mut rem: u64 = (cycle - 1) as u64;
        let mut k: usize = 0;
        assert(fv.subrange(0, fv.len() as int) =~= fv);
        while k < flat.len()
            invariant
                k <= flat@.len(),
                fv == flat@.map_values(|p: (usize, OverrideCycle)| (p.0 as int, p.1)),
                locate(fv.subrange(k as int, fv.len() as int), rem as int) == locate(
                    flat_runs(self.reads()),
                    cycle - 1,
                ),
                fv == flat_runs(self.reads()),
            decreases flat@.len() - k,
        {
            let (read, run) = flat[k];
            assert(fv.subrange(k as int, fv.len() as int).drop_first() =~= fv.subrange(
                k + 1,
                fv.len() as int,
            ));
            assert(fv.subrange(k as int, fv.len() as int)[0] == (read as int, run));
            let n = run_length(run);
            if rem < n as u64 {
                return Some((read, run));
            }
            rem = rem - n as u64;
            k = k + 1;
        }
        None
    }

    pub fn reads_len(&self) -> (r: usize)
        ensures
            r == self.reads().len(),
    {
        self.cycles.len()
    }
}

/// The length of a run.
pub open spec fn run_len(run: OverrideCycle) -> int {
    match run {
        OverrideCycle::I(n) => n as int,
        OverrideCycle::Y(n) => n as int,
        OverrideCycle::U(n) => n as int,
        OverrideCycle::N(n) => n as int,
    }
}

pub fn run_length(run: OverrideCycle) -> (r: u8)
    ensures
        r as int == run_len(run),
{
    match run {
        OverrideCycle::I(n) => n,
        OverrideCycle::Y(n) => n,
        OverrideCycle::U(n) => n,
        OverrideCycle::N(n) => n,
    }
}

/// The runs of all reads in order, each with the index of its read.
pub open spec fn flat_runs(reads: Seq<Seq<OverrideCycle>>) -> Seq<(int, OverrideCycle)>
    decreases reads.len(),
{
    if reads.len() == 0 {
        Seq::empty()
    } else {
        flat_runs(reads.drop_last()) + reads.last().map_values(
            |run: OverrideCycle| ((reads.len() - 1) as int, run),
        )
    }
}

/// The run that holds the cycle at offset `c` (from 0), with its read.
pub open spec fn locate(runs: Seq<(int, OverrideCycle)>, c: int) -> Option<(int, OverrideCycle)>
    decreases runs.len(),
{
    if runs.len() == 0 {
        None
    } else if c < run_len(runs[0].1) {
        Some(runs[0])
    } else {
        locate(runs.drop_first(), c - run_len(runs[0].1))
    }
}

fn flatten_runs(reads: &Vec<Vec<OverrideCycle>>) -> (r: Vec<(usize, OverrideCycle)>)
    ensures
        r@.map_values(|p: (usize, OverrideCycle)| (p.0 as int, p.1)) == flat_runs(
            reads@.map_values(|v: Vec<OverrideCycle>| v@),
        ),
{
    let ghost rs = reads@.map_values(|v: Vec<OverrideCycle>| v@);
    let mut out: Vec<(usize, OverrideCycle)> = Vec::new();
    let mut i: usize = 0;
    assert(out@.map_values(|p: (usize, OverrideCycle)| (p.0 as int, p.1)) =~= flat_runs(
        rs.subrange(0, 0),
    ));
    while i < reads.len()
        invariant
            i <= reads@.len(),
            rs == reads@.map_values(|v: Vec<OverrideCycle>| v@),
            out@.map_values(|p: (usize, OverrideCycle)| (p.0 as int, p.1)) == flat_runs(
                rs.subrange(0, i as int),
            ),
        decreases reads@.len() - i,
    {
        let ghost base = out@.map_values(|p: (usize, OverrideCycle)| (p.0 as int, p.1));
        let read = &reads[i];
        let mut j: usize = 0;
        while j < read.len()
            invariant
                i < reads@.len(),
                *read == reads@[i as int],
                j <= read@.len(),
                out@.map_values(|p: (usize, OverrideCycle)| (p.0 as int, p.1)) == base
                    + read@.subrange(0, j as int).map_values(
                    |run: OverrideCycle| (i as int, run),
                ),
            decreases read@.len() - j,
        {
            let ghost prev = out@.map_values(|p: (usize, OverrideCycle)| (p.0 as int, p.1));
            let run = read[j];
            out.push((i, run));
            assert(out@.map_values(|p: (usize, OverrideCycle)| (p.0 as int, p.1)) =~= prev.push(
                (i as int, run),
            ));
            assert(read@.subrange(0, j + 1).map_values(|run: OverrideCycle| (i as int, run))
                =~= read@.subrange(0, j as int).map_values(|run: OverrideCycle| (i as int, run)).push(
                (i as int, run),
            ));
            j = j + 1;
            assert(out@.map_values(|p: (usize, OverrideCycle)| (p.0 as int, p.1)) =~= base
                + read@.subrange(0, j as int).map_values(|run: OverrideCycle| (i as int, run)));
        }
        assert(rs.subrange(0, i + 1).drop_last() =~= rs.subrange(0, i as int));
        assert(read@.subrange(0, read@.len() as int) =~= read@);
        i = i + 1;
        assert(out@.map_values(|p: (usize, OverrideCycle)| (p.0 as int, p.1)) =~= flat_runs(
            rs.subrange(0, i as int),
        ));
    }
    assert(rs.subrange(0, rs.len() as int) =~= rs);
    out
}

fn count_sequence_runs(read: &Vec<OverrideCycle>) -> (r: usize)
    ensures
        r == sequence_runs(read@),
{
    let mut n: usize = 0;
    let mut i: usize = 0;
    while i < read.len()
        invariant
            i <= read@.len(),
            n == sequence_runs(read@.subrange(0, i as int)),
            n <= i,
        decreases read@.len() - i,
    {
        assert(read@.subrange(0, i + 1).drop_last() =~= read@.subrange(0, i as int));
        match read[i] {
            OverrideCycle::I(_) | OverrideCycle::Y(_) => {
                n = n + 1;
            },
            _ => {},
        }
        i = i + 1;
    }
    assert(read@.subrange(0, read@.len() as int) =~= read@);
    n
}

/// Each read can contain only one `Y` or `I` run.
pub fn validate_cycles(cycles: &Vec<Vec<OverrideCycle>>) -> (r: Result<(), SampleSheetError>)
    ensures
        r is Ok <==> cycles_valid(cycles@.map_values(|c: Vec<OverrideCycle>| c@)),
{
    let ghost reads = cycles@.map_values(|c: Vec<OverrideCycle>| c@);
    let mut i: usize = 0;
    while i < cycles.len()
        invariant
            i <= cycles@.len(),
            reads == cycles@.map_values(|c: Vec<OverrideCycle>| c@),
            forall|r: int| 0 <= r < i ==> sequence_runs(#[trigger] reads[r]) == 1,
        decreases cycles@.len() - i,
    {
        if count_sequence_runs(&cycles[i]) != 1 {
            assert(sequence_runs(reads[i as int]) != 1);
            return Err(
                SampleSheetError::ParseError(
                    "each read can contain only one Y or I sequence".to_owned(),
                ),
            );
        }
        i = i + 1;
    }
    Ok(())
}

/// A letter that starts a run.
pub open spec fn is_kind(c: char) -> bool {
    c == 'I' || c == 'Y' || c == 'U' || c == 'N'
}

/// The run of kind `c` and length `n`.
pub open spec fn run_of(c: char, n: u8) -> OverrideCycle {
    if c == 'I' {
        OverrideCycle::I(n)
    } else if c == 'Y' {
        OverrideCycle::Y(n)
    } else if c == 'U' {
        OverrideCycle::U(n)
    } else {
        OverrideCycle::N(n)
    }
}

/// Where the run of digits that starts at `i` ends.
pub open spec fn digits_end(s: Seq<char>, i: int) -> int
    decreases s.len() - i,
{
    if 0 <= i < s.len() && is_digit(s[i]) {
        digits_end(s, i + 1)
    } else {
        i
    }
}

/// Reads an `OverrideCycles` setting from position `i`, with the reads
/// `done` and the runs `cur` of the read in progress already read: runs are
/// a kind letter and a length of 0 to 255; reads are separated by `;`, which
/// may also end the text. Nothing else may appear.
pub open spec fn scan_cycles(
    s: Seq<char>,
    i: int,
    done: Seq<Seq<OverrideCycle>>,
    cur: Seq<OverrideCycle>,
) -> Option<Seq<Seq<OverrideCycle>>>
    decreases s.len() - i,
{
    if i < 0 || i >= s.len() {
        if cur.len() > 0 {
            Some(done.push(cur))
        } else if done.len() > 0 {
            Some(done)
        } else {
            None
        }
    } else if is_kind(s[i]) {
        let e = digits_end(s, i + 1);
        if e <= i + 1 || e > s.len() || decimal(s.subrange(i + 1, e)) > 255 {
            None
        } else {
            scan_cycles(s, e, done, cur.push(run_of(s[i], decimal(s.subrange(i + 1, e)) as u8)))
        }
    } else if s[i] == ';' && cur.len() > 0 {
        scan_cycles(s, i + 1, done.push(cur), Seq::empty())
    } else {
        None
    }
}

/// The reads of an `OverrideCycles` text, if it is one.
pub open spec fn override_reads(s: Seq<char>) -> Option<Seq<Seq<OverrideCycle>>> {
    scan_cycles(s, 0, Seq::empty(), Seq::empty())
}

proof fn lemma_digits_end(s: Seq<char>, i: int)
    requires
        0 <= i <= s.len(),
    ensures
        i <= digits_end(s, i) <= s.len(),
        forall|k: int| i <= k < digits_end(s, i) ==> is_digit(#[trigger] s[k]),
        digits_end(s, i) < s.len() ==> !is_digit(s[digits_end(s, i)]),
    decreases s.len() - i,
{
    if i < s.len() && is_digit(s[i]) {
        lemma_digits_end(s, i + 1);
    }
}

/// Reads the run length that starts at `from`: the digits up to `digits_end`,
/// when there are some and their value is at most 255.
fn parse_run_length(s: &str, from: usize) -> (r: (usize, Option<u8>))
    requires
        from <= s@.len(),
    ensures
        r.0 == digits_end(s@, from as int),
        from <= r.0 <= s@.len(),
        r.1 is Some <==> r.0 > from && decimal(s@.subrange(from as int, r.0 as int)) <= 255,
        r.1 matches Some(v) ==> v as int == decimal(s@.subrange(from as int, r.0 as int)),
{
    let n = s.unicode_len();
    proof {
        lemma_digits_end(s@, from as int);
    }
    let ghost e = digits_end(s@, from as int);
    let mut j: usize = from;
    let mut v: u32 = 0;
    let mut over = false;
    while j < n && '0' <= s.get_char(j) && s.get_char(j) <= '9'
        invariant
            n == s@.len(),
            from <= j <= e,
            e == digits_end(s@, from as int),
            e <= n,
            forall|k: int| from <= k < e ==> is_digit(#[trigger] s@[k]),
            e < n ==> !is_digit(s@[e]),
            !over ==> v as int == decimal(s@.subrange(from as int, j as int)) && v <= 255,
            over ==> decimal(s@.subrange(from as int, j as int)) > 255,
        decreases n - j,
    {
        let c = s.get_char(j);
        let ghost t = s@.subrange(from as int, j + 1);
        assert(t.drop_last() =~= s@.subrange(from as int, j as int));
        proof {
            assert forall|k: int| 0 <= k < t.len() implies is_digit(#[trigger] t[k]) by {
                assert(t[k] == s@[from + k]);
            }
            lemma_decimal_grows(t, t.len() - 1);
            assert(t.subrange(0, t.len() - 1) =~= t.drop_last());
        }
        if !over {
            let d = (c as u32) - ('0' as u32);
            let w = 10 * v + d;
            if w > 255 {
                over = true;
            } else {
                v = w;
            }
        }
        j = j + 1;
    }
    proof {
        if j < n {
            assert(!is_digit(s@[j as int]));
            if j < e {
                assert(is_digit(s@[j as int]));
            }
        }
    }
    if over || j == from {
        (j, None)
    } else {
        (j, Some(v as u8))
    }
}

/// A single run, such as `Y151`: a kind letter and a length of 0 to 255.
pub open spec fn single_run(s: Seq<char>) -> Option<OverrideCycle> {
    if s.len() >= 2 && is_kind(s[0]) && digits_end(s, 1) == s.len() && decimal(
        s.subrange(1, s.len() as int),
    ) <= 255 {
        Some(run_of(s[0], decimal(s.subrange(1, s.len() as int)) as u8))
    } else {
        None
    }
}

/// Reads a single run, such as `Y151`.
pub fn override_cycle(s: &str) -> (r: Option<OverrideCycle>)
    ensures
        r == single_run(s@),
{
    let n = s.unicode_len();
    if n < 2 {
        return None;
    }
    let c = s.get_char(0);
    if !(c == 'I' || c == 'Y' || c == 'U' || c == 'N') {
        return None;
    }
    let (e, len) = parse_run_length(s, 1);
    if e != n {
        return None;
    }
    match len {
        None => None,
        Some(v) => {
            if c == 'I' {
                Some(OverrideCycle::I(v))
            } else if c == 'Y' {
                Some(OverrideCycle::Y(v))
            } else if c == 'U' {
                Some(OverrideCycle::U(v))
            } else {
                Some(OverrideCycle::N(v))
            }
        },
    }
}

/// Reads the reads of an `OverrideCycles` setting, such as `Y151;I8;I8;Y151`
/// or `U8Y143;I8;I8;U8Y143`.
pub fn override_cycles(s: &str) -> (r: Option<Vec<Vec<OverrideCycle>>>)
    ensures
        r is Some <==> override_reads(s@) is Some,
        r matches Some(c) ==> c@.map_values(|v: Vec<OverrideCycle>| v@) == override_reads(
            s@,
        )->Some_0,
{
    let n = s.unicode_len();
    let mut done: Vec<Vec<OverrideCycle>> = Vec::new();
    let mut cur: Vec<OverrideCycle> = Vec::new();
    let mut i: usize = 0;
    assert(done@.map_values(|v: Vec<OverrideCycle>| v@) =~= Seq::<Seq<OverrideCycle>>::empty());
    assert(cur@ =~= Seq::<OverrideCycle>::empty());
    while i < n
        invariant
            n == s@.len(),
            i <= n,
            scan_cycles(s@, i as int, done@.map_values(|v: Vec<OverrideCycle>| v@), cur@)
                == override_reads(s@),
        decreases n - i,
    {
        let c = s.get_char(i);
        if c == 'I' || c == 'Y' || c == 'U' || c == 'N' {
            let (e, len) = parse_run_length(s, i + 1);
            match len {
                None => {
                    return None;
                },
                Some(v) => {
                    let run = if c == 'I' {
                        OverrideCycle::I(v)
                    } else if c == 'Y' {
                        OverrideCycle::Y(v)
                    } else if c == 'U' {
                        OverrideCycle::U(v)
                    } else {
                        OverrideCycle::N(v)
                    };
                    let ghost d = done@.map_values(|v: Vec<OverrideCycle>| v@);
                    cur.push(run);
                    assert(done@.map_values(|v: Vec<OverrideCycle>| v@) == d);
                    i = e;
                },
            }
        } else if c == ';' && cur.len() > 0 {
            let ghost before = done@.map_values(|v: Vec<OverrideCycle>| v@);
            let ghost cur_seq = cur@;
            done.push(cur);
            cur = Vec::new();
            assert(done@.map_values(|v: Vec<OverrideCycle>| v@) =~= before.push(cur_seq));
            assert(cur@ =~= Seq::<OverrideCycle>::empty());
            i = i + 1;
        } else {
            return None;
        }
    }
    if cur.len() > 0 {
        let ghost before = done@.map_values(|v: Vec<OverrideCycle>| v@);
        let ghost cur_seq = cur@;
        done.push(cur);
        assert(done@.map_values(|v: Vec<OverrideCycle>| v@) =~= before.push(cur_seq));
        Some(done)
    } else if done.len() > 0 {
        Some(done)
    } else {
        None
    }
}

/// Whether a section holds one key-value pair per line or a CSV table.
#[derive(Debug, PartialEq, Eq)]
pub enum SectionType {
    Standalone,
    CSV,
    Unknown(String),
}

/// A bracketed section of a sample sheet.
#[derive(Debug, PartialEq, Eq)]
pub enum SampleSheetSection {
    Header(SectionType),
    Reads(SectionType),
    Settings(SectionType),
    Data(SectionType),
    BCLConvertSettings(SectionType),
    BCLConvertData(SectionType),
    Other(SectionType),
}

impl SampleSheetSection {
    /// The layout of the section's contents.
    pub fn get_kind(&self) -> (r: &SectionType)
        ensures
            match self {
                SampleSheetSection::Header(k) => r == k,
                SampleSheetSection::Reads(k) => r == k,
                SampleSheetSection::Settings(k) => r == k,
                SampleSheetSection::Data(k) => r == k,
                SampleSheetSection::BCLConvertSettings(k) => r == k,
                SampleSheetSection::BCLConvertData(k) => r == k,
                SampleSheetSection::Other(k) => r == k,
            },
    {
        match self {
            SampleSheetSection::Header(kind) => kind,
            SampleSheetSection::Reads(kind) => kind,
            SampleSheetSection::Settings(kind) => kind,
            SampleSheetSection::Data(kind) => kind,
            SampleSheetSection::BCLConvertSettings(kind) => kind,
            SampleSheetSection::BCLConvertData(kind) => kind,
            SampleSheetSection::Other(kind) => kind,
        }
    }
}

/// The `[Header]` section.
#[derive(Debug)]
pub struct SampleSheetHeader {
    pub file_format_version: SampleSheetVersion,
    pub run_name: Option<String>,
    pub instrument_platform: Option<String>,
    pub instrument_type: Option<String>,
}

/// The `[Reads]` section: cycles of each read and index.
#[derive(Debug)]
pub struct SampleSheetReads {
    pub read_1_cycles: u16,
    pub read_2_cycles: u16,
    pub index_1_cycles: Option<u16>,
    pub index_2_cycles: Option<u16>,
}

/// One row of the `[Data]` section.
#[derive(Debug)]
pub struct SampleSheetData {
    pub lane: u8,
    pub sample_id: String,
    pub index: String,
    pub index_2: Option<String>,
}

} // verus!
