//! The text of a sample sheet: bracketed section headers, each followed by
//! its lines, which are either one key and value per line or a CSV table.
use vstd::prelude::*;
use vstd::string::*;

use crate::samplesheet::{SampleSheetError, SampleSheetSection, SectionType};
use crate::seqdir::last_index_of;
use crate::text::text_eq;

verus! {

/// The pieces of `s` between newlines, the last one included even if empty.
pub open spec fn segments(s: Seq<char>) -> Seq<Seq<char>>
    decreases s.len(),
{
    let k = last_index_of(s, '\n');
    if k < 0 || k >= s.len() {
        seq![s]
    } else {
        segments(s.subrange(0, k)).push(s.subrange(k + 1, s.len() as int))
    }
}

/// A line without the `\r` of a `\r\n` ending.
pub open spec fn strip_cr(l: Seq<char>) -> Seq<char> {
    if l.len() > 0 && l.last() == '\r' {
        l.drop_last()
    } else {
        l
    }
}

/// The lines of `s`: split at `\n` or `\r\n`; a final line ending ends the
/// last line rather than starting an empty one.
pub open spec fn lines_of(s: Seq<char>) -> Seq<Seq<char>> {
    if s.len() == 0 {
        Seq::empty()
    } else {
        let seg = segments(s);
        let body = seg.drop_last().map_values(|l: Seq<char>| strip_cr(l));
        if s.last() == '\n' {
            body
        } else {
            body.push(seg.last())
        }
    }
}

/// The lines that end before position `ls`, which follows a newline.
spec fn complete_lines(s: Seq<char>, ls: int) -> Seq<Seq<char>> {
    if ls <= 0 {
        Seq::empty()
    } else {
        segments(s.subrange(0, ls - 1)).map_values(|l: Seq<char>| strip_cr(l))
    }
}

proof fn lemma_last_newline(t: Seq<char>, k: int)
    requires
        -1 <= k < t.len(),
        k >= 0 ==> t[k] == '\n',
        forall|j: int| k < j < t.len() ==> t[j] != '\n',
    ensures
        last_index_of(t, '\n') == k,
    decreases t.len(),
{
    if t.len() > 0 && k < t.len() - 1 {
        lemma_last_newline(t.drop_last(), k);
    }
}

/// The segments of `s` up to `i`, where the last newline before `i` is at
/// `ls - 1`.
proof fn lemma_segments_step(s: Seq<char>, ls: int, i: int)
    requires
        0 <= ls <= i <= s.len(),
        ls > 0 ==> s[ls - 1] == '\n',
        forall|j: int| ls <= j < i ==> s[j] != '\n',
    ensures
        segments(s.subrange(0, i)) == (if ls == 0 {
            Seq::empty()
        } else {
            segments(s.subrange(0, ls - 1))
        }).push(s.subrange(ls, i)),
{
    let t = s.subrange(0, i);
    lemma_last_newline(t, ls - 1);
    if ls > 0 {
        assert(t.subrange(0, ls - 1) =~= s.subrange(0, ls - 1));
        assert(t.subrange(ls, i) =~= s.subrange(ls, i));
    } else {
        assert(t =~= s.subrange(ls, i));
    }
}

/// Splits `s` into its lines.
pub fn split_lines(s: &str) -> (r: Vec<String>)
    ensures
        r@.map_values(|l: String| l@) == lines_of(s@),
{
    let n = s.unicode_len();
    let mut out: Vec<String> = Vec::new();
    let mut ls: usize = 0;
    let mut i: usize = 0;
    assert(out@.map_values(|l: String| l@) =~= complete_lines(s@, 0));
    while i < n
        invariant
            n == s@.len(),
            ls <= i <= n,
            ls > 0 ==> s@[ls - 1] == '\n',
            forall|j: int| ls <= j < i ==> s@[j] != '\n',
            out@.map_values(|l: String| l@) == complete_lines(s@, ls as int),
        decreases n - i,
    {
        if s.get_char(i) == '\n' {
            let mut end = i;
            if end > ls && s.get_char(end - 1) == '\r' {
                end = end - 1;
            }
            let line = s.substring_char(ls, end).to_owned();
            proof {
                lemma_segments_step(s@, ls as int, i as int);
                assert(line@ == strip_cr(s@.subrange(ls as int, i as int)));
            }
            let ghost before = out@.map_values(|l: String| l@);
            out.push(line);
            assert(out@.map_values(|l: String| l@) =~= before.push(line@));
            assert(complete_lines(s@, i + 1) =~= before.push(line@)) by {
                assert(s@.subrange(0, i as int) == s@.subrange(0, (i + 1) - 1));
            }
            ls = i + 1;
        }
        i = i + 1;
    }
    proof {
        lemma_segments_step(s@, ls as int, n as int);
        assert(s@.subrange(0, n as int) =~= s@);
    }
    if ls < n {
        let line = s.substring_char(ls, n).to_owned();
        let ghost before = out@.map_values(|l: String| l@);
        out.push(line);
        assert(out@.map_values(|l: String| l@) =~= before.push(line@));
        assert(lines_of(s@) =~= before.push(line@));
    } else if n > 0 {
        assert(lines_of(s@) =~= out@.map_values(|l: String| l@));
    } else {
        assert(lines_of(s@) =~= out@.map_values(|l: String| l@));
    }
    out
}

/// A line without its trailing commas.
pub open spec fn trim_commas(l: Seq<char>) -> Seq<char>
    decreases l.len(),
{
    if l.len() > 0 && l.last() == ',' {
        trim_commas(l.drop_last())
    } else {
        l
    }
}

/// The lines, each without its trailing commas and ended by a newline.
pub open spec fn trimmed_lines(ls: Seq<Seq<char>>) -> Seq<char>
    decreases ls.len(),
{
    if ls.len() == 0 {
        Seq::empty()
    } else {
        trimmed_lines(ls.drop_last()) + trim_commas(ls.last()) + seq!['\n']
    }
}

fn trim_end_commas(l: &str) -> (r: &str)
    ensures
        r@ == trim_commas(l@),
{
    let mut k = l.unicode_len();
    assert(l@.subrange(0, k as int) =~= l@);
    while k > 0 && l.get_char(k - 1) == ','
        invariant
            k <= l@.len(),
            trim_commas(l@.subrange(0, k as int)) == trim_commas(l@),
        decreases k,
    {
        assert(l@.subrange(0, k as int).drop_last() =~= l@.subrange(0, k - 1));
        k = k - 1;
    }
    l.substring_char(0, k)
}

/// Removes trailing commas from each line of a section, ending every line
/// with a newline.
pub fn preprocess(input: &str) -> (r: String)
    ensures
        r@ == trimmed_lines(lines_of(input@)),
{
    let lines = split_lines(input);
    let ghost ls = lines@.map_values(|l: String| l@);
    let mut out = String::new();
    let mut i: usize = 0;
    proof {
        reveal_strlit("\n");
    }
    while i < lines.len()
        invariant
            i <= lines@.len(),
            ls == lines@.map_values(|l: String| l@),
            out@ == trimmed_lines(ls.subrange(0, i as int)),
        decreases lines@.len() - i,
    {
        assert(ls.subrange(0, i + 1).drop_last() =~= ls.subrange(0, i as int));
        proof {
            reveal_strlit("\n");
        }
        out.append(trim_end_commas(lines[i].as_str()));
        out.append("\n");
        i = i + 1;
    }
    assert(ls.subrange(0, ls.len() as int) =~= ls);
    out
}

/// The position of the first `c` in `s`, or -1.
pub open spec fn first_index_of(s: Seq<char>, c: char) -> int
    decreases s.len(),
{
    if s.len() == 0 {
        -1
    } else if first_index_of(s.drop_last(), c) >= 0 {
        first_index_of(s.drop_last(), c)
    } else if s.last() == c {
        s.len() - 1
    } else {
        -1
    }
}

fn find_first(s: &str, c: char) -> (r: Option<usize>)
    ensures
        r is None <==> first_index_of(s@, c) < 0,
        r matches Some(k) ==> k == first_index_of(s@, c) && k < s@.len(),
{
    let n = s.unicode_len();
    let mut i: usize = 0;
    while i < n
        invariant
            n == s@.len(),
            i <= n,
            first_index_of(s@.subrange(0, i as int), c) < 0,
        decreases n - i,
    {
        assert(s@.subrange(0, i + 1).drop_last() =~= s@.subrange(0, i as int));
        if s.get_char(i) == c {
            proof {
                lemma_first_index_prefix(s@, c, i + 1);
            }
            return Some(i);
        }
        i = i + 1;
    }
    assert(s@.subrange(0, n as int) =~= s@);
    None
}

/// Where a prefix holds `c`, its first `c` is the first of the whole.
proof fn lemma_first_index_prefix(s: Seq<char>, c: char, i: int)
    requires
        0 <= i <= s.len(),
        first_index_of(s.subrange(0, i), c) >= 0,
    ensures
        first_index_of(s, c) == first_index_of(s.subrange(0, i), c),
    decreases s.len() - i,
{
    if i < s.len() {
        assert(s.subrange(0, i + 1).drop_last() =~= s.subrange(0, i));
        lemma_first_index_prefix(s, c, i + 1);
    } else {
        assert(s.subrange(0, i) =~= s);
    }
}

/// The keys and the values of the lines that hold a comma, split at the first.
pub open spec fn key_values(ls: Seq<Seq<char>>) -> Seq<(Seq<char>, Seq<char>)>
    decreases ls.len(),
{
    if ls.len() == 0 {
        Seq::empty()
    } else {
        let rest = key_values(ls.drop_last());
        let l = ls.last();
        let k = first_index_of(l, ',');
        if k >= 0 {
            rest.push((l.subrange(0, k), l.subrange(k + 1, l.len() as int)))
        } else {
            rest
        }
    }
}

/// The parts joined by commas.
pub open spec fn comma_join(parts: Seq<Seq<char>>) -> Seq<char>
    decreases parts.len(),
{
    if parts.len() == 0 {
        Seq::empty()
    } else if parts.len() == 1 {
        parts[0]
    } else {
        comma_join(parts.drop_last()) + seq![','] + parts.last()
    }
}

/// A key-value section turned into a CSV table of one row: the keys on the
/// first line, the values on the second.
pub open spec fn transposed(s: Seq<char>) -> Seq<char> {
    let kv = key_values(lines_of(s));
    comma_join(kv.map_values(|p: (Seq<char>, Seq<char>)| p.0)) + seq!['\n'] + comma_join(
        kv.map_values(|p: (Seq<char>, Seq<char>)| p.1),
    )
}

/// Turns `a,b` / `c,d` / `x,y` into `a,c,x` / `b,d,y`.
pub fn transmute_kv(s: &str) -> (r: String)
    ensures
        r@ == transposed(s@),
{
    let lines = split_lines(s);
    let ghost ls = lines@.map_values(|l: String| l@);
    let mut keys = String::new();
    let mut vals = String::new();
    let mut any = false;
    let mut i: usize = 0;
    proof {
        reveal_strlit(",");
        reveal_strlit("\n");
    }
    while i < lines.len()
        invariant
            i <= lines@.len(),
            ls == lines@.map_values(|l: String| l@),
            any == (key_values(ls.subrange(0, i as int)).len() > 0),
            keys@ == comma_join(
                key_values(ls.subrange(0, i as int)).map_values(|p: (Seq<char>, Seq<char>)| p.0),
            ),
            vals@ == comma_join(
                key_values(ls.subrange(0, i as int)).map_values(|p: (Seq<char>, Seq<char>)| p.1),
            ),
        decreases lines@.len() - i,
    {
        let ghost before = key_values(ls.subrange(0, i as int));
        assert(ls.subrange(0, i + 1).drop_last() =~= ls.subrange(0, i as int));
        proof {
            reveal_strlit(",");
        }
        let line = lines[i].as_str();
        let ln = line.unicode_len();
        match find_first(line, ',') {
            None => {},
            Some(k) => {
                let ghost kv = key_values(ls.subrange(0, i + 1));
                assert(kv == before.push((line@.subrange(0, k as int), line@.subrange(k + 1, line@.len() as int))));
                assert(kv.map_values(|p: (Seq<char>, Seq<char>)| p.0).drop_last() =~= before.map_values(
                    |p: (Seq<char>, Seq<char>)| p.0,
                ));
                assert(kv.map_values(|p: (Seq<char>, Seq<char>)| p.1).drop_last() =~= before.map_values(
                    |p: (Seq<char>, Seq<char>)| p.1,
                ));
                if any {
                    keys.append(",");
                    vals.append(",");
                } else {
                    assert(before.len() == 0);
                    assert(keys@ =~= Seq::<char>::empty());
                    assert(vals@ =~= Seq::<char>::empty());
                }
                keys.append(line.substring_char(0, k));
                vals.append(line.substring_char(k + 1, ln));
                any = true;
            },
        }
        i = i + 1;
    }
    assert(ls.subrange(0, ls.len() as int) =~= ls);
    proof {
        reveal_strlit("\n");
    }
    keys.append("\n");
    keys.append(vals.as_str());
    keys
}

/// Where the run of commas that starts at `i` ends.
pub open spec fn commas_end(s: Seq<char>, i: int) -> int
    decreases s.len() - i,
{
    if 0 <= i < s.len() && s[i] == ',' {
        commas_end(s, i + 1)
    } else {
        i
    }
}

/// The first `c` at or after `from`, or the end of `s`.
pub open spec fn next_or_end(s: Seq<char>, from: int, c: char) -> int {
    let k = first_index_of(s.subrange(from, s.len() as int), c);
    if k < 0 {
        s.len() as int
    } else {
        from + k
    }
}

/// The layout of a section at the start of `s`: `[name]`, one or more commas,
/// a line ending, then contents that run up to the next `[` or the end and
/// are not empty. Gives where the name ends, and where the contents start and
/// end.
pub open spec fn section_layout(s: Seq<char>) -> Option<(int, int, int)> {
    if s.len() == 0 || s[0] != '[' {
        None
    } else {
        let close = next_or_end(s, 1, ']');
        let c_end = commas_end(s, close + 1);
        let start = if c_end < s.len() && s[c_end] == '\n' {
            c_end + 1
        } else if c_end + 1 < s.len() && s[c_end] == '\r' && s[c_end + 1] == '\n' {
            c_end + 2
        } else {
            -1
        };
        let end = next_or_end(s, start, '[');
        if close <= 1 || close >= s.len() || c_end <= close + 1 || start < 0 || end <= start {
            None
        } else {
            Some((close, start, end))
        }
    }
}

/// The section named `name`.
pub open spec fn names_section(name: Seq<char>, r: SampleSheetSection) -> bool {
    if name == "Header"@ {
        r == SampleSheetSection::Header(SectionType::Standalone)
    } else if name == "Settings"@ {
        r == SampleSheetSection::Settings(SectionType::Standalone)
    } else if name == "Data"@ {
        r == SampleSheetSection::Data(SectionType::CSV)
    } else if name == "Reads"@ {
        r == SampleSheetSection::Reads(SectionType::Standalone)
    } else if name == "BCLConvert_Settings"@ {
        r == SampleSheetSection::BCLConvertSettings(SectionType::Standalone)
    } else if name == "BCLConvert_Data"@ {
        r == SampleSheetSection::BCLConvertData(SectionType::CSV)
    } else {
        r matches SampleSheetSection::Other(SectionType::Unknown(n)) && n@ == name
    }
}

/// The section that a header names; unknown names give `Other`.
pub fn section_from_name(name: &str) -> (r: SampleSheetSection)
    ensures
        names_section(name@, r),
{
    proof {
        reveal_strlit("Header");
        reveal_strlit("Settings");
        reveal_strlit("Data");
        reveal_strlit("Reads");
        reveal_strlit("BCLConvert_Settings");
        reveal_strlit("BCLConvert_Data");
    }
    if text_eq(name, "Header") {
        SampleSheetSection::Header(SectionType::Standalone)
    } else if text_eq(name, "Settings") {
        SampleSheetSection::Settings(SectionType::Standalone)
    } else if text_eq(name, "Data") {
        SampleSheetSection::Data(SectionType::CSV)
    } else if text_eq(name, "Reads") {
        SampleSheetSection::Reads(SectionType::Standalone)
    } else if text_eq(name, "BCLConvert_Settings") {
        SampleSheetSection::BCLConvertSettings(SectionType::Standalone)
    } else if text_eq(name, "BCLConvert_Data") {
        SampleSheetSection::BCLConvertData(SectionType::CSV)
    } else {
        SampleSheetSection::Other(SectionType::Unknown(name.to_owned()))
    }
}

fn next_from(s: &str, from: usize, c: char) -> (r: usize)
    requires
        from <= s@.len(),
    ensures
        r == next_or_end(s@, from as int, c),
        from <= r <= s@.len(),
{
    let n = s.unicode_len();
    let tail = s.substring_char(from, n);
    match find_first(tail, c) {
        Some(k) => from + k,
        None => n,
    }
}

/// Reads the section at the start of `input`: its header, which names it, and
/// its contents, with trailing commas removed from each line. Gives the text
/// that follows, which starts at the next section.
pub fn parse_section<'a>(input: &'a str) -> (r: Result<
    (&'a str, (SampleSheetSection, String)),
    SampleSheetError,
>)
    ensures
        r is Ok <==> section_layout(input@) is Some,
        r matches Ok((rest, (section, contents))) ==> {
            let (close, start, end) = section_layout(input@)->Some_0;
            &&& names_section(input@.subrange(1, close), section)
            &&& contents@ == trimmed_lines(lines_of(input@.subrange(start, end)))
            &&& rest@ == input@.subrange(end, input@.len() as int)
        },
{
    let n = input.unicode_len();
    if n == 0 || input.get_char(0) != '[' {
        return Err(SampleSheetError::ParseError("Failed to parse SampleSheet header".to_owned()));
    }
    let close = next_from(input, 1, ']');
    if close <= 1 || close >= n {
        return Err(SampleSheetError::ParseError("Failed to parse SampleSheet header".to_owned()));
    }
    let mut c_end = close + 1;
    while c_end < n && input.get_char(c_end) == ','
        invariant
            n == input@.len(),
            close + 1 <= c_end <= n,
            commas_end(input@, close + 1) == commas_end(input@, c_end as int),
        decreases n - c_end,
    {
        c_end = c_end + 1;
    }
    if c_end <= close + 1 {
        return Err(SampleSheetError::ParseError("Failed to parse SampleSheet header".to_owned()));
    }
    let start: usize = if c_end < n && input.get_char(c_end) == '\n' {
        c_end + 1
    } else if c_end < n - 1 && input.get_char(c_end) == '\r' && input.get_char(c_end + 1) == '\n' {
        c_end + 2
    } else {
        return Err(SampleSheetError::ParseError("Failed to parse SampleSheet header".to_owned()));
    };
    let end = next_from(input, start, '[');
    if end <= start {
        return Err(SampleSheetError::ParseError("Failed to parse SampleSheet section".to_owned()));
    }
    let section = section_from_name(input.substring_char(1, close));
    let contents = preprocess(input.substring_char(start, end));
    Ok((input.substring_char(end, n), (section, contents)))
}

} // verus!
