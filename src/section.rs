//! The marked section of a configuration file: where it lies, and how the
//! file is rebuilt around a new section.

use vstd::prelude::*;
use crate::config::{
    activate, activated, parse_configs, parse_section, serialize, serialize_configs, strings_view,
};
use crate::text::{contains, contains_str};

verus! {

/// Text that marks the line before the section.
pub const START_MARKER: &'static str = "Display Start";

/// Text that marks the line after the section.
pub const END_MARKER: &'static str = "Display End";

/// Why a file cannot be rewritten.
#[derive(Debug, Clone, Copy, PartialEq, Eq, Structural)]
pub enum SectionError {
    /// No line holds the start marker.
    StartMarkerNotFound,
    /// No line holds the end marker.
    EndMarkerNotFound,
    /// The first end marker does not come after the first start marker.
    InvertedMarkers,
    /// The chosen record does not exist.
    NoSuchRecord,
}

/// Index of the first line at or after `k` that holds `marker`.
pub open spec fn marker_from(lines: Seq<Seq<char>>, marker: Seq<char>, k: int) -> Option<int>
    decreases lines.len() - k,
{
    if 0 <= k < lines.len() {
        if contains(lines[k], marker) {
            Some(k)
        } else {
            marker_from(lines, marker, k + 1)
        }
    } else {
        None
    }
}

/// A line found by `marker_from` lies in the file and holds the marker.
pub proof fn lemma_marker_found(lines: Seq<Seq<char>>, marker: Seq<char>, k: int)
    ensures
        match marker_from(lines, marker, k) {
            Some(i) => k <= i < lines.len() && contains(lines[i], marker),
            None => true,
        },
    decreases lines.len() - k,
{
    if 0 <= k < lines.len() && !contains(lines[k], marker) {
        lemma_marker_found(lines, marker, k + 1);
    }
}

/// Index of the first line that holds `marker`.
pub open spec fn marker_index(lines: Seq<Seq<char>>, marker: Seq<char>) -> Option<int> {
    marker_from(lines, marker, 0)
}

/// The indices of the start and end marker lines, or why there are none.
pub open spec fn section_bounds(lines: Seq<Seq<char>>) -> Result<(int, int), SectionError> {
    match marker_index(lines, START_MARKER@) {
        None => Err(SectionError::StartMarkerNotFound),
        Some(s) => match marker_index(lines, END_MARKER@) {
            None => Err(SectionError::EndMarkerNotFound),
            Some(e) => if e <= s {
                Err(SectionError::InvertedMarkers)
            } else {
                Ok((s, e))
            },
        },
    }
}

/// The file with the lines strictly between the markers replaced.
pub open spec fn splice(lines: Seq<Seq<char>>, start: int, end: int, section: Seq<Seq<char>>) -> Seq<
    Seq<char>,
> {
    lines.subrange(0, start + 1) + section + lines.subrange(end, lines.len() as int)
}

/// The file once the record at `index` of its section is the enabled one.
pub open spec fn rewritten(lines: Seq<Seq<char>>, index: int) -> Result<Seq<Seq<char>>, SectionError> {
    match section_bounds(lines) {
        Err(e) => Err(e),
        Ok((s, e)) => {
            let records = parse_section(lines.subrange(s + 1, e));
            if 0 <= index < records.len() {
                Ok(splice(lines, s, e, serialize(activated(records, index))))
            } else {
                Err(SectionError::NoSuchRecord)
            }
        },
    }
}

/// Index of the first line that holds `marker`.
pub fn find_marker(lines: &[String], marker: &str) -> (r: Option<usize>)
    ensures
        match r {
            Some(k) => marker_index(strings_view(lines@), marker@) == Some(k as int),
            None => marker_index(strings_view(lines@), marker@) is None,
        },
{
    let ghost all = strings_view(lines@);
    let mut i: usize = 0;
    while i < lines.len()
        invariant
            all == strings_view(lines@),
            i <= lines@.len(),
            marker_index(all, marker@) == marker_from(all, marker@, i as int),
        decreases lines.len() - i,
    {
        if contains_str(lines[i].as_str(), marker) {
            return Some(i);
        }
        i += 1;
    }
    None
}

/// The indices of the start and end marker lines: the first line holding
/// each marker, the end after the start.
pub fn locate_section(lines: &[String]) -> (r: Result<(usize, usize), SectionError>)
    ensures
        match r {
            Ok((s, e)) => section_bounds(strings_view(lines@)) == Ok::<(int, int), SectionError>(
                (s as int, e as int),
            ),
            Err(err) => section_bounds(strings_view(lines@)) == Err::<(int, int), SectionError>(err),
        },
{
    let start = match find_marker(lines, START_MARKER) {
        Some(s) => s,
        None => {
            return Err(SectionError::StartMarkerNotFound);
        },
    };
    let end = match find_marker(lines, END_MARKER) {
        Some(e) => e,
        None => {
            return Err(SectionError::EndMarkerNotFound);
        },
    };
    if end <= start {
        Err(SectionError::InvertedMarkers)
    } else {
        Ok((start, end))
    }
}

/// Copies of the lines at indices `from` up to, not including, `to`.
pub fn copy_lines(lines: &[String], from: usize, to: usize) -> (r: Vec<String>)
    requires
        from <= to <= lines@.len(),
    ensures
        r@ == lines@.subrange(from as int, to as int),
{
    let mut r: Vec<String> = Vec::new();
    let mut i = from;
    while i < to
        invariant
            from <= i <= to <= lines@.len(),
            r@ == lines@.subrange(from as int, i as int),
        decreases to - i,
    {
        r.push(lines[i].clone());
        i += 1;
        proof {
            assert(r@ =~= lines@.subrange(from as int, i as int));
        }
    }
    r
}

/// The file with the lines strictly between the marker lines at `start` and
/// `end` replaced by `section`; the marker lines and everything outside them
/// are copied through.
pub fn splice_section(lines: &[String], start: usize, end: usize, section: &[String]) -> (r: Vec<
    String,
>)
    requires
        start < end < lines@.len(),
    ensures
        r@ == lines@.subrange(0, start + 1) + section@ + lines@.subrange(end as int, lines@.len() as int),
        strings_view(r@) == splice(strings_view(lines@), start as int, end as int, strings_view(section@)),
{
    let mut r = copy_lines(lines, 0, start + 1);
    let mut i: usize = 0;
    let ghost head = r@;
    while i < section.len()
        invariant
            i <= section@.len(),
            r@ == head + section@.subrange(0, i as int),
        decreases section.len() - i,
    {
        r.push(section[i].clone());
        i += 1;
        proof {
            assert(r@ =~= head + section@.subrange(0, i as int));
        }
    }
    let tail = copy_lines(lines, end, lines.len());
    let mut j: usize = 0;
    proof {
        assert(section@.subrange(0, section@.len() as int) =~= section@);
    }
    let ghost mid = r@;
    while j < tail.len()
        invariant
            j <= tail@.len(),
            r@ == mid + tail@.subrange(0, j as int),
        decreases tail.len() - j,
    {
        r.push(tail[j].clone());
        j += 1;
        proof {
            assert(r@ =~= mid + tail@.subrange(0, j as int));
        }
    }
    proof {
        assert(tail@.subrange(0, tail@.len() as int) =~= tail@);
        let v = strings_view(lines@);
        assert(strings_view(r@) =~= splice(v, start as int, end as int, strings_view(section@)));
    }
    r
}

/// The file once the record at `index` (counted from zero) of its section is
/// enabled and all others are disabled, or why that cannot be done.
pub fn rewrite_config(lines: &[String], index: usize) -> (r: Result<Vec<String>, SectionError>)
    ensures
        match r {
            Ok(v) => rewritten(strings_view(lines@), index as int) == Ok::<Seq<Seq<char>>, SectionError>(
                strings_view(v@),
            ),
            Err(e) => rewritten(strings_view(lines@), index as int) == Err::<Seq<Seq<char>>, SectionError>(
                e,
            ),
        },
{
    let (start, end) = match locate_section(lines) {
        Ok(b) => b,
        Err(e) => {
            return Err(e);
        },
    };
    proof {
        lemma_marker_found(strings_view(lines@), END_MARKER@, 0);
    }
    let section = copy_lines(lines, start + 1, end);
    proof {
        assert(strings_view(section@) =~= strings_view(lines@).subrange(start + 1, end as int));
    }
    let mut configs = parse_configs(section.as_slice());
    if index >= configs.len() {
        return Err(SectionError::NoSuchRecord);
    }
    activate(&mut configs, index);
    let new_section = serialize_configs(configs.as_slice());
    Ok(splice_section(lines, start, end, new_section.as_slice()))
}

} // verus!
