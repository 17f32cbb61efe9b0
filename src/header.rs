//! Record header lines, `# Description = <text>, Status = <text>`: how one is
//! recognised inside a line, and how one is written.

use vstd::prelude::*;
use vstd::string::StringExecFns;
use crate::text::{trim, trim_str};

verus! {

broadcast use vstd::string::to_string_from_display_ensures_for_str;

/// The regular expression that finds a header inside a line; its two groups
/// capture the description and the status.
pub const HEADER_PATTERN: &'static str = "# Description = ([^,]+), Status = ([^,]+)";

/// The text that opens a header.
pub open spec fn description_key() -> Seq<char> {
    "# Description = "@
}

/// The text between a header's description and its status.
pub open spec fn status_key() -> Seq<char> {
    ", Status = "@
}

/// Index of the first comma at or after `i`, or the length of `s` if none.
pub open spec fn next_comma(s: Seq<char>, i: int) -> int
    decreases s.len() - i,
{
    if 0 <= i < s.len() {
        if s[i] == ',' {
            i
        } else {
            next_comma(s, i + 1)
        }
    } else {
        s.len() as int
    }
}

/// The header pattern matches `s` starting at index `p`: the key, a non-empty
/// run of non-commas, the status key right after that run, and a non-comma.
pub open spec fn header_at(s: Seq<char>, p: int) -> bool {
    let d = p + description_key().len();
    let c = next_comma(s, d);
    let e = c + status_key().len();
    &&& 0 <= p
    &&& d <= s.len()
    &&& s.subrange(p, d) == description_key()
    &&& d < c
    &&& e < s.len()
    &&& s.subrange(c, e) == status_key()
    &&& s[e] != ','
}

/// The two groups of the match at `p`: each is a maximal run of non-commas.
pub open spec fn fields_at(s: Seq<char>, p: int) -> (Seq<char>, Seq<char>) {
    let d = p + description_key().len();
    let c = next_comma(s, d);
    let e = c + status_key().len();
    (s.subrange(d, c), s.subrange(e, next_comma(s, e)))
}

/// The groups of the leftmost match at or after `p`, if any.
pub open spec fn header_from(s: Seq<char>, p: int) -> Option<(Seq<char>, Seq<char>)>
    decreases s.len() + 1 - p,
{
    if p < 0 || p > s.len() {
        None
    } else if header_at(s, p) {
        Some(fields_at(s, p))
    } else {
        header_from(s, p + 1)
    }
}

/// The groups of the leftmost match of the header pattern in `s`.
pub open spec fn header_fields(s: Seq<char>) -> Option<(Seq<char>, Seq<char>)> {
    header_from(s, 0)
}

/// The description and status that a line declares, each trimmed, or `None`
/// where the line is no header.
pub open spec fn header_of(s: Seq<char>) -> Option<(Seq<char>, Seq<char>)> {
    match header_fields(s) {
        Some((d, st)) => Some((trim(d), trim(st))),
        None => None,
    }
}

/// The header line written for a record.
pub open spec fn header_text(description: Seq<char>, status: Seq<char>) -> Seq<char> {
    description_key() + description + status_key() + status
}

/// Relies on `regex::Regex::new`, which accepts `HEADER_PATTERN`, and on
/// `regex::Regex::captures`, which reports the leftmost-first match with
/// greedy repetition, on Unicode scalar values: `[^,]` is any character but a
/// comma.
#[verifier::external_body]
fn header_captures(pattern: &str, line: &str) -> (r: Option<(String, String)>)
    requires
        pattern@ == HEADER_PATTERN@,
    ensures
        match r {
            Some((d, st)) => header_fields(line@) == Some((d@, st@)),
            None => header_fields(line@) is None,
        },
{
    let re = regex::Regex::new(pattern).unwrap();
    re.captures(line).map(|caps| (caps[1].to_string(), caps[2].to_string()))
}

/// The trimmed description and status of a header line, or `None` where the
/// line holds no header.
pub fn parse_header(line: &str) -> (r: Option<(String, String)>)
    ensures
        match r {
            Some((d, st)) => header_of(line@) == Some((d@, st@)),
            None => header_of(line@) is None,
        },
{
    match header_captures(HEADER_PATTERN, line) {
        Some((d, st)) => Some((trim_str(d.as_str()), trim_str(st.as_str()))),
        None => None,
    }
}

/// Writes `# Description = {description}, Status = {status}`.
pub fn format_header(description: &str, status: &str) -> (r: String)
    ensures
        r@ == header_text(description@, status@),
{
    let mut r = "# Description = ".to_string();
    r.append(description);
    r.append(", Status = ");
    r.append(status);
    r
}

} // verus!
