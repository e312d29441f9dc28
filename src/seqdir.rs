//! The sequencing run directory: where its files are, how its lanes and
//! cycles are laid out, and whether it is complete. The file system is probed
//! by the caller; these functions decide from what the probes found.
use vstd::prelude::*;
use vstd::string::*;

use crate::text::{ends_with, has_prefix, has_suffix, join_path, path_join, starts_with};

verus! {

pub const COPY_COMPLETE_TXT: &'static str = "CopyComplete.txt";
pub const RTA_COMPLETE_TXT: &'static str = "RTAComplete.txt";
pub const SEQUENCE_COMPLETE_TXT: &'static str = "SequenceComplete.txt";
pub const SAMPLESHEET_CSV: &'static str = "SampleSheet.csv";
pub const RUN_INFO_XML: &'static str = "RunInfo.xml";
pub const RUN_COMPLETION_STATUS_XML: &'static str = "RunCompletionStatus.xml";
pub const RUN_PARAMS_XML: &'static str = "RunParameters.xml";
pub const BASECALLS: &'static str = "Data/Intensities/BaseCalls/";
pub const FILTER_SUFFIX: &'static str = ".filter";
pub const CBCL: &'static str = "cbcl";
pub const CBCL_GZ: &'static str = "cbcl.gz";
pub const BCL: &'static str = "bcl";
pub const BCL_GZ: &'static str = "bcl.gz";
pub const CYCLE_PREFIX: &'static str = "C";

/// A BCL or a CBCL file.
#[derive(Clone, Debug)]
pub enum Bcl {
    Bcl(String),
    CBcl(String),
}

/// `Some(true)` for a CBCL path, `Some(false)` for a legacy BCL path.
pub open spec fn bcl_kind(path: Seq<char>) -> Option<bool> {
    if has_suffix(path, CBCL@) || has_suffix(path, CBCL_GZ@) {
        Some(true)
    } else if has_suffix(path, BCL@) || has_suffix(path, BCL_GZ@) {
        Some(false)
    } else {
        None
    }
}

impl Bcl {
    /// The path of the file.
    pub open spec fn path_of(&self) -> Seq<char> {
        match self {
            Bcl::Bcl(p) => p@,
            Bcl::CBcl(p) => p@,
        }
    }

    /// Paths ending in `cbcl` or `cbcl.gz` are CBCLs; those ending in `bcl` or
    /// `bcl.gz` are BCLs; other paths are neither.
    pub fn from_path(path: &str) -> (r: Option<Bcl>)
        ensures
            bcl_kind(path@) is None <==> r is None,
            bcl_kind(path@) == Some(true) ==> (r matches Some(Bcl::CBcl(p)) && p@ == path@),
            bcl_kind(path@) == Some(false) ==> (r matches Some(Bcl::Bcl(p)) && p@ == path@),
    {
        if ends_with(path, CBCL) || ends_with(path, CBCL_GZ) {
            Some(Bcl::CBcl(path.to_owned()))
        } else if ends_with(path, BCL) || ends_with(path, BCL_GZ) {
            Some(Bcl::Bcl(path.to_owned()))
        } else {
            None
        }
    }
}

/// What can be wrong with a sequencing directory.
#[derive(Debug, Clone, PartialEq, Eq)]
pub enum SeqDirError {
    NotFound(String),
    IncompleteNotFound,
    MissingLaneDirs,
    IoError(String),
    MissingLanes(usize),
    TooManyLanes(usize),
    MissingCycles,
    MissingBcls(u16),
    BadCycle(String),
    ParseIntError,
}

/// The position of the last `c` in `s`, or -1.
pub open spec fn last_index_of(s: Seq<char>, c: char) -> int
    decreases s.len(),
{
    if s.len() == 0 {
        -1
    } else if s.last() == c {
        s.len() - 1
    } else {
        last_index_of(s.drop_last(), c)
    }
}

proof fn lemma_last_index_bounds(s: Seq<char>, c: char)
    ensures
        -1 <= last_index_of(s, c) < s.len(),
        last_index_of(s, c) >= 0 ==> s[last_index_of(s, c)] == c,
        forall|j: int| last_index_of(s, c) < j < s.len() ==> s[j] != c,
    decreases s.len(),
{
    if s.len() > 0 && s.last() != c {
        lemma_last_index_bounds(s.drop_last(), c);
        assert forall|j: int| last_index_of(s, c) < j < s.len() implies s[j] != c by {
            if j < s.len() - 1 {
                assert(s.drop_last()[j] == s[j]);
            }
        }
    }
}

fn find_last(s: &str, c: char) -> (r: Option<usize>)
    ensures
        r is None <==> last_index_of(s@, c) == -1,
        r matches Some(i) ==> i == last_index_of(s@, c) && i < s@.len(),
{
    let n = s.unicode_len();
    let mut i: usize = n;
    assert(s@.subrange(0, n as int) =~= s@);
    while i > 0
        invariant
            n == s@.len(),
            i <= n,
            last_index_of(s@, c) == last_index_of(s@.subrange(0, i as int), c),
        decreases i,
    {
        assert(s@.subrange(0, i as int).drop_last() =~= s@.subrange(0, i - 1));
        if s.get_char(i - 1) == c {
            return Some(i - 1);
        }
        i = i - 1;
    }
    assert(s@.subrange(0, 0) =~= Seq::<char>::empty());
    None
}

/// The last component of a path.
pub open spec fn file_name(p: Seq<char>) -> Seq<char> {
    p.subrange(last_index_of(p, '/') + 1, p.len() as int)
}

/// A file name without its last extension; a leading dot starts no extension.
pub open spec fn file_stem(name: Seq<char>) -> Seq<char> {
    if last_index_of(name, '.') > 0 {
        name.subrange(0, last_index_of(name, '.'))
    } else {
        name
    }
}

/// The value of a run of decimal digits.
pub open spec fn decimal(s: Seq<char>) -> int
    decreases s.len(),
{
    if s.len() == 0 {
        0
    } else {
        10 * decimal(s.drop_last()) + (s.last() as int - '0' as int)
    }
}

pub open spec fn is_digit(c: char) -> bool {
    '0' <= c <= '9'
}

/// One or more digits whose value is at most `max`.
pub open spec fn is_number_upto(s: Seq<char>, max: int) -> bool {
    &&& s.len() > 0
    &&& forall|i: int| 0 <= i < s.len() ==> is_digit(#[trigger] s[i])
    &&& decimal(s) <= max
}

/// A cycle number: one or more digits whose value fits in 16 bits.
pub open spec fn is_cycle_number(s: Seq<char>) -> bool {
    is_number_upto(s, u16::MAX as int)
}

pub(crate) proof fn lemma_decimal_grows(s: Seq<char>, i: int)
    requires
        0 <= i <= s.len(),
        forall|j: int| 0 <= j < s.len() ==> is_digit(#[trigger] s[j]),
    ensures
        decimal(s.subrange(0, i)) <= decimal(s),
    decreases s.len() - i,
{
    if i < s.len() {
        lemma_decimal_grows(s, i + 1);
        assert(s.subrange(0, i + 1).drop_last() =~= s.subrange(0, i));
        assert(decimal(s.subrange(0, i)) >= 0) by {
            lemma_decimal_nonneg(s.subrange(0, i));
        }
    } else {
        assert(s.subrange(0, i) =~= s);
    }
}

pub(crate) proof fn lemma_decimal_nonneg(s: Seq<char>)
    requires
        forall|j: int| 0 <= j < s.len() ==> is_digit(#[trigger] s[j]),
    ensures
        decimal(s) >= 0,
    decreases s.len(),
{
    if s.len() > 0 {
        lemma_decimal_nonneg(s.drop_last());
    }
}

/// Reads the characters `from..to` of `s` as a number of at most `max`.
fn parse_decimal(s: &str, from: usize, to: usize, max: u32) -> (r: Option<u32>)
    requires
        from <= to <= s@.len(),
    ensures
        r is Some <==> is_number_upto(s@.subrange(from as int, to as int), max as int),
        r matches Some(v) ==> v as int == decimal(s@.subrange(from as int, to as int)),
{
    let ghost t = s@.subrange(from as int, to as int);
    if from == to {
        return None;
    }
    let mut v: u32 = 0;
    let mut i: usize = from;
    while i < to
        invariant
            from <= i <= to <= s@.len(),
            t == s@.subrange(from as int, to as int),
            forall|j: int| 0 <= j < i - from ==> is_digit(#[trigger] t[j]),
            v as int == decimal(t.subrange(0, i - from)),
            v <= max,
        decreases to - i,
    {
        let c = s.get_char(i);
        assert(c == t[i - from]);
        if c < '0' || c > '9' {
            return None;
        }
        let d = (c as u32) - ('0' as u32);
        assert(t.subrange(0, i + 1 - from).drop_last() =~= t.subrange(0, i - from));
        let w: u64 = 10 * (v as u64) + (d as u64);
        if w > max as u64 {
            proof {
                if forall|k: int| 0 <= k < t.len() ==> is_digit(#[trigger] t[k]) {
                    lemma_decimal_grows(t, i + 1 - from);
                }
            }
            return None;
        }
        v = w as u32;
        i = i + 1;
    }
    assert(t.subrange(0, to - from) =~= t);
    Some(v)
}

/// A cycle directory, `C<number>.<chunk>`, and the base-call files in it.
#[derive(Debug, Clone)]
pub struct Cycle {
    cycle_num: u16,
    bcls: Vec<Bcl>,
}

/// The base-call files among `entries`, in their order.
pub open spec fn bcl_entries(entries: Seq<Seq<char>>) -> Seq<Seq<char>>
    decreases entries.len(),
{
    if entries.len() == 0 {
        Seq::empty()
    } else {
        let rest = bcl_entries(entries.drop_last());
        if bcl_kind(entries.last()) is Some {
            rest.push(entries.last())
        } else {
            rest
        }
    }
}

/// The number of the cycle directory at `path`: its stem without the leading
/// `C`, or `None` where that is not a cycle number.
pub open spec fn cycle_of(path: Seq<char>) -> Option<u16> {
    let stem = file_stem(file_name(path));
    if has_prefix(stem, CYCLE_PREFIX@) && is_cycle_number(stem.subrange(1, stem.len() as int)) {
        Some(decimal(stem.subrange(1, stem.len() as int)) as u16)
    } else {
        None
    }
}

impl Cycle {
    pub closed spec fn number(&self) -> u16 {
        self.cycle_num
    }

    pub closed spec fn files(&self) -> Seq<Seq<char>> {
        self.bcls@.map_values(|b: Bcl| b.path_of())
    }

    /// The cycle held in the directory `path`, whose entries are `entries`.
    pub fn from_entries(path: &str, entries: &Vec<String>) -> (r: Result<Cycle, SeqDirError>)
        ensures
            cycle_of(path@) is None ==> (r matches Err(SeqDirError::BadCycle(p)) && p@ == path@),
            cycle_of(path@) matches Some(n) ==> (bcl_entries(entries@.map_values(|e: String| e@)).len()
                == 0 ==> r == Err::<Cycle, SeqDirError>(SeqDirError::MissingBcls(n))),
            r is Ok <==> cycle_of(path@) is Some && bcl_entries(
                entries@.map_values(|e: String| e@),
            ).len() > 0,
            r matches Ok(c) ==> Some(c.number()) == cycle_of(path@) && c.files() == bcl_entries(
                entries@.map_values(|e: String| e@),
            ),
    {
        let cycle_num = match cycle_number(path) {
            Some(n) => n,
            None => {
                return Err(SeqDirError::BadCycle(path.to_owned()));
            },
        };
        let ghost names = entries@.map_values(|e: String| e@);
        let mut bcls: Vec<Bcl> = Vec::new();
        let mut i: usize = 0;
        while i < entries.len()
            invariant
                i <= entries@.len(),
                names == entries@.map_values(|e: String| e@),
                bcls@.map_values(|b: Bcl| b.path_of()) == bcl_entries(names.subrange(0, i as int)),
            decreases entries@.len() - i,
        {
            assert(names.subrange(0, i + 1).drop_last() =~= names.subrange(0, i as int));
            match Bcl::from_path(entries[i].as_str()) {
                Some(b) => {
                    bcls.push(b);
                },
                None => {},
            }
            i = i + 1;
            assert(bcls@.map_values(|b: Bcl| b.path_of()) =~= bcl_entries(
                names.subrange(0, i as int),
            ));
        }
        assert(names.subrange(0, names.len() as int) =~= names);
        if bcls.len() == 0 {
            return Err(SeqDirError::MissingBcls(cycle_num));
        }
        Ok(Cycle { cycle_num, bcls })
    }

    pub fn cycle_num(&self) -> (r: u16)
        ensures
            r == self.number(),
    {
        self.cycle_num
    }

    pub fn bcls(&self) -> (r: &Vec<Bcl>)
        ensures
            r@.map_values(|b: Bcl| b.path_of()) == self.files(),
    {
        &self.bcls
    }
}

/// The number of the cycle directory at `path`.
pub fn cycle_number(path: &str) -> (r: Option<u16>)
    ensures
        r == cycle_of(path@),
{
    let n = path.unicode_len();
    let name_start: usize = match find_last(path, '/') {
        Some(k) => k + 1,
        None => 0,
    };
    proof {
        lemma_last_index_bounds(path@, '/');
    }
    let name = path.substring_char(name_start, n);
    assert(name@ == file_name(path@));
    let stem_end: usize = match find_last(name, '.') {
        Some(k) => if k > 0 {
            k
        } else {
            name.unicode_len()
        },
        None => name.unicode_len(),
    };
    proof {
        lemma_last_index_bounds(name@, '.');
    }
    let stem = name.substring_char(0, stem_end);
    assert(stem@ =~= file_stem(file_name(path@)));
    if !starts_with(stem, CYCLE_PREFIX) {
        return None;
    }
    proof {
        reveal_strlit("C");
    }
    match parse_decimal(stem, 1, stem.unicode_len(), 65535) {
        Some(v) => Some(v as u16),
        None => None,
    }
}

/// The tile number of a filter file, such as `s_1_1101.filter`: the digits
/// between the last `_` of its name and the `.filter` suffix.
pub open spec fn filter_tile_of(path: Seq<char>) -> Option<u32> {
    let name = file_name(path);
    let stem = name.subrange(0, name.len() - 7);
    let digits = stem.subrange(last_index_of(stem, '_') + 1, stem.len() as int);
    if has_suffix(name, FILTER_SUFFIX@) && is_number_upto(digits, u32::MAX as int) {
        Some(decimal(digits) as u32)
    } else {
        None
    }
}

/// The tile number of the filter file at `path`.
pub fn filter_tile_number(path: &str) -> (r: Option<u32>)
    ensures
        r == filter_tile_of(path@),
{
    let n = path.unicode_len();
    let name_start: usize = match find_last(path, '/') {
        Some(k) => k + 1,
        None => 0,
    };
    proof {
        lemma_last_index_bounds(path@, '/');
    }
    let name = path.substring_char(name_start, n);
    assert(name@ == file_name(path@));
    if !ends_with(name, FILTER_SUFFIX) {
        return None;
    }
    proof {
        reveal_strlit(".filter");
    }
    let stem = name.substring_char(0, name.unicode_len() - 7);
    let start: usize = match find_last(stem, '_') {
        Some(k) => k + 1,
        None => 0,
    };
    proof {
        lemma_last_index_bounds(stem@, '_');
    }
    parse_decimal(stem, start, stem.unicode_len(), 4294967295)
}

/// The filter files among `files`, in their order.
pub open spec fn filter_entries(files: Seq<Seq<char>>) -> Seq<Seq<char>>
    decreases files.len(),
{
    if files.len() == 0 {
        Seq::empty()
    } else {
        let rest = filter_entries(files.drop_last());
        if has_suffix(files.last(), FILTER_SUFFIX@) {
            rest.push(files.last())
        } else {
            rest
        }
    }
}

/// The cycles of one lane and the paths of its filter files.
#[derive(Debug)]
pub struct Lane {
    cycles: Vec<Cycle>,
    filters: Vec<String>,
}

impl Lane {
    pub closed spec fn cycles_seq(&self) -> Seq<Cycle> {
        self.cycles@
    }

    pub closed spec fn filter_paths(&self) -> Seq<Seq<char>> {
        self.filters@.map_values(|f: String| f@)
    }

    /// A lane directory entry is a cycle directory when its name starts with `C`.
    pub fn is_cycle_dir_name(name: &str) -> (r: bool)
        ensures
            r == has_prefix(name@, CYCLE_PREFIX@),
    {
        starts_with(name, CYCLE_PREFIX)
    }

    /// The lane made of its cycles and of the filter files among the other
    /// files of its directory. A lane without cycles is refused.
    pub fn from_parts(cycles: Vec<Cycle>, files: &Vec<String>) -> (r: Result<Lane, SeqDirError>)
        ensures
            r is Err <==> cycles@.len() == 0,
            r is Err ==> r == Err::<Lane, SeqDirError>(SeqDirError::MissingCycles),
            r matches Ok(l) ==> l.cycles_seq() == cycles@ && l.filter_paths()
                == filter_entries(files@.map_values(|f: String| f@)),
    {
        if cycles.len() == 0 {
            return Err(SeqDirError::MissingCycles);
        }
        let ghost names = files@.map_values(|f: String| f@);
        let mut filters: Vec<String> = Vec::new();
        let mut i: usize = 0;
        while i < files.len()
            invariant
                i <= files@.len(),
                names == files@.map_values(|f: String| f@),
                filters@.map_values(|f: String| f@) == filter_entries(names.subrange(0, i as int)),
            decreases files@.len() - i,
        {
            assert(names.subrange(0, i + 1).drop_last() =~= names.subrange(0, i as int));
            if ends_with(files[i].as_str(), FILTER_SUFFIX) {
                filters.push(files[i].as_str().to_owned());
            }
            i = i + 1;
            assert(filters@.map_values(|f: String| f@) =~= filter_entries(
                names.subrange(0, i as int),
            ));
        }
        assert(names.subrange(0, names.len() as int) =~= names);
        Ok(Lane { cycles, filters })
    }

    pub fn cycles(&self) -> (r: &Vec<Cycle>)
        ensures
            r@ == self.cycles_seq(),
    {
        &self.cycles
    }

    pub fn filters(&self) -> (r: &Vec<String>)
        ensures
            r@.map_values(|f: String| f@) == self.filter_paths(),
    {
        &self.filters
    }
}

/// The lane directories that a run may have.
pub const LANES: [&'static str; 4] = ["L001", "L002", "L003", "L004"];

/// Where the directory of lane `lane` stands under the run directory `root`.
pub open spec fn lane_dir(root: Seq<char>, lane: Seq<char>) -> Seq<char> {
    path_join(path_join(root, BASECALLS@), lane)
}

/// The directories of lanes `L001` to `L004` under the run directory `root`.
pub fn lane_dirs(root: &str) -> (r: Vec<String>)
    ensures
        r@.len() == 4,
        forall|i: int| 0 <= i < 4 ==> (#[trigger] r@[i])@ == lane_dir(root@, LANES[i]@),
{
    let base = join_path(root, BASECALLS);
    let mut r: Vec<String> = Vec::new();
    let mut i: usize = 0;
    while i < 4
        invariant
            i <= 4,
            base@ == path_join(root@, BASECALLS@),
            r@.len() == i,
            forall|j: int| 0 <= j < i ==> (#[trigger] r@[j])@ == lane_dir(root@, LANES[j]@),
        decreases 4 - i,
    {
        r.push(join_path(base.as_str(), LANES[i]));
        i = i + 1;
    }
    r
}

/// A completed run has two or four lanes.
pub fn check_lane_count(n: usize) -> (r: Result<(), SeqDirError>)
    ensures
        r is Ok <==> n == 2 || n == 4,
        n == 0 ==> r == Err::<(), SeqDirError>(SeqDirError::MissingLaneDirs),
        n == 1 || n == 3 ==> r == Err::<(), SeqDirError>(SeqDirError::MissingLanes(n)),
        n > 4 ==> r == Err::<(), SeqDirError>(SeqDirError::TooManyLanes(n)),
{
    if n == 0 {
        Err(SeqDirError::MissingLaneDirs)
    } else if n == 2 || n == 4 {
        Ok(())
    } else if n > 4 {
        Err(SeqDirError::TooManyLanes(n))
    } else {
        Err(SeqDirError::MissingLanes(n))
    }
}

/// What the file system showed of a run directory.
#[derive(Debug, Clone, Copy, PartialEq, Eq, Structural)]
pub struct DirProbe {
    pub is_dir: bool,
    pub copy_complete: bool,
    pub samplesheet: bool,
    pub run_info: bool,
    pub run_params: bool,
}

/// Paths of a sequencing run directory and of the files in it.
#[derive(Debug, Clone)]
pub struct SeqDir {
    root: String,
    samplesheet: String,
    run_info: String,
    run_params: String,
    run_completion: String,
}

impl SeqDir {
    pub closed spec fn root_path(&self) -> Seq<char> {
        self.root@
    }

    /// The paths are those of the named files under the root.
    pub closed spec fn wf(&self) -> bool {
        &&& self.samplesheet@ == path_join(self.root@, SAMPLESHEET_CSV@)
        &&& self.run_info@ == path_join(self.root@, RUN_INFO_XML@)
        &&& self.run_params@ == path_join(self.root@, RUN_PARAMS_XML@)
        &&& self.run_completion@ == path_join(self.root@, RUN_COMPLETION_STATUS_XML@)
    }

    /// The run directory at `path`, which must be a directory (`is_dir`).
    pub fn from_path(path: &str, is_dir: bool) -> (r: Result<SeqDir, SeqDirError>)
        ensures
            r is Ok <==> is_dir,
            !is_dir ==> (r matches Err(SeqDirError::NotFound(p)) && p@ == path@),
            r matches Ok(d) ==> d.root_path() == path@ && d.wf(),
    {
        if !is_dir {
            return Err(SeqDirError::NotFound(path.to_owned()));
        }
        Ok(SeqDir {
            root: path.to_owned(),
            samplesheet: join_path(path, SAMPLESHEET_CSV),
            run_info: join_path(path, RUN_INFO_XML),
            run_params: join_path(path, RUN_PARAMS_XML),
            run_completion: join_path(path, RUN_COMPLETION_STATUS_XML),
        })
    }

    /// The run directory at `path`, which must look complete.
    pub fn from_completed(path: &str, probe: &DirProbe) -> (r: Result<SeqDir, SeqDirError>)
        ensures
            r is Ok <==> run_complete(*probe),
            r matches Ok(d) ==> d.root_path() == path@ && d.wf(),
    {
        match detect_illumina_seq_dir(path, probe) {
            Ok(()) => SeqDir::from_path(path, probe.is_dir),
            Err(e) => Err(e),
        }
    }

    /// The lanes found in the run, which a completed run has two or four of.
    pub fn lanes(&self, found: Vec<Lane>) -> (r: Result<Vec<Lane>, SeqDirError>)
        ensures
            r is Ok <==> found@.len() == 2 || found@.len() == 4,
            r matches Ok(l) ==> l@ == found@,
    {
        match check_lane_count(found.len()) {
            Ok(()) => Ok(found),
            Err(e) => Err(e),
        }
    }

    pub fn root(&self) -> (r: &String)
        ensures
            r@ == self.root_path(),
    {
        &self.root
    }

    /// The path of `SampleSheet.csv`, when it is a file (`is_file`).
    pub fn samplesheet(&self, is_file: bool) -> (r: Result<String, SeqDirError>)
        requires
            self.wf(),
        ensures
            r is Ok <==> is_file,
            r matches Ok(p) ==> p@ == path_join(self.root_path(), SAMPLESHEET_CSV@),
            r matches Err(SeqDirError::NotFound(p)) ==> p@ == path_join(
                self.root_path(),
                SAMPLESHEET_CSV@,
            ),
    {
        file_or_not_found(self.samplesheet.as_str(), is_file)
    }

    /// The path of `RunInfo.xml`, when it is a file (`is_file`).
    pub fn run_info(&self, is_file: bool) -> (r: Result<String, SeqDirError>)
        requires
            self.wf(),
        ensures
            r is Ok <==> is_file,
            r matches Ok(p) ==> p@ == path_join(self.root_path(), RUN_INFO_XML@),
            r matches Err(SeqDirError::NotFound(p)) ==> p@ == path_join(
                self.root_path(),
                RUN_INFO_XML@,
            ),
    {
        file_or_not_found(self.run_info.as_str(), is_file)
    }

    /// The path of `RunParameters.xml`, when it is a file (`is_file`).
    pub fn run_params(&self, is_file: bool) -> (r: Result<String, SeqDirError>)
        requires
            self.wf(),
        ensures
            r is Ok <==> is_file,
            r matches Ok(p) ==> p@ == path_join(self.root_path(), RUN_PARAMS_XML@),
            r matches Err(SeqDirError::NotFound(p)) ==> p@ == path_join(
                self.root_path(),
                RUN_PARAMS_XML@,
            ),
    {
        file_or_not_found(self.run_params.as_str(), is_file)
    }

    /// The path of `RunCompletionStatus.xml`, when it is a file (`is_file`);
    /// not every instrument writes one.
    pub fn run_completion_status(&self, is_file: bool) -> (r: Option<String>)
        requires
            self.wf(),
        ensures
            r is Some <==> is_file,
            r matches Some(p) ==> p@ == path_join(self.root_path(), RUN_COMPLETION_STATUS_XML@),
    {
        if is_file {
            Some(self.run_completion.as_str().to_owned())
        } else {
            None
        }
    }

    /// The path of `name` under the root, when it is a file (`is_file`).
    pub fn get_file(&self, name: &str, is_file: bool) -> (r: Result<String, SeqDirError>)
        ensures
            r is Ok <==> is_file,
            r matches Ok(p) ==> p@ == path_join(self.root_path(), name@),
            r matches Err(SeqDirError::NotFound(p)) ==> p@ == path_join(self.root_path(), name@),
    {
        let p = join_path(self.root.as_str(), name);
        file_or_not_found(p.as_str(), is_file)
    }
}

fn file_or_not_found(path: &str, is_file: bool) -> (r: Result<String, SeqDirError>)
    ensures
        r is Ok <==> is_file,
        r matches Ok(p) ==> p@ == path@,
        r matches Err(e) ==> (e matches SeqDirError::NotFound(p) && p@ == path@),
{
    if is_file {
        Ok(path.to_owned())
    } else {
        Err(SeqDirError::NotFound(path.to_owned()))
    }
}

/// The run directory is a directory and holds the files of a finished run.
pub open spec fn run_complete(p: DirProbe) -> bool {
    p.is_dir && p.copy_complete && p.samplesheet && p.run_info && p.run_params
}

/// Whether a directory looks like a complete Illumina run: a directory that
/// holds `CopyComplete.txt`, `SampleSheet.csv`, `RunInfo.xml` and
/// `RunParameters.xml`. The first that is missing is reported.
pub fn detect_illumina_seq_dir(dir: &str, probe: &DirProbe) -> (r: Result<(), SeqDirError>)
    ensures
        r is Ok <==> run_complete(*probe),
        !probe.is_dir ==> r matches Err(SeqDirError::IoError(_)),
        probe.is_dir && !probe.copy_complete ==> (r matches Err(SeqDirError::NotFound(p)) && p@
            == COPY_COMPLETE_TXT@),
        probe.is_dir && probe.copy_complete && !probe.samplesheet ==> (r matches Err(
            SeqDirError::NotFound(p),
        ) && p@ == SAMPLESHEET_CSV@),
        probe.is_dir && probe.copy_complete && probe.samplesheet && !probe.run_info ==> (r matches Err(
            SeqDirError::NotFound(p),
        ) && p@ == RUN_INFO_XML@),
        probe.is_dir && probe.copy_complete && probe.samplesheet && probe.run_info
            && !probe.run_params ==> (r matches Err(SeqDirError::NotFound(p)) && p@
            == RUN_PARAMS_XML@),
{
    if !probe.is_dir {
        return Err(SeqDirError::IoError("dir must be a directory".to_owned()));
    }
    if !probe.copy_complete {
        return Err(SeqDirError::NotFound(COPY_COMPLETE_TXT.to_owned()));
    }
    if !probe.samplesheet {
        return Err(SeqDirError::NotFound(SAMPLESHEET_CSV.to_owned()));
    }
    if !probe.run_info {
        return Err(SeqDirError::NotFound(RUN_INFO_XML.to_owned()));
    }
    if !probe.run_params {
        return Err(SeqDirError::NotFound(RUN_PARAMS_XML.to_owned()));
    }
    Ok(())
}

} // verus!
