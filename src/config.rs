//! Display records: the lines of the marked section are read into records,
//! one record is enabled, and the records are written back as lines.

use vstd::prelude::*;
use vstd::string::StringExecFns;
use crate::header::{format_header, header_of, header_text, parse_header};
use crate::text::{eq_ignore_ascii_case, eq_ignore_case_str, uncomment, uncomment_str};

verus! {

broadcast use vstd::string::to_string_from_display_ensures_for_str;

/// One display configuration of the section.
pub struct DisplayConfig {
    /// The label of the record, trimmed.
    pub description: String,
    /// The status as read; `Enabled` in any ASCII case means enabled.
    pub status: String,
    /// The directive lines of the record, with their comment markers removed.
    pub outputs: Vec<String>,
}

/// What a `DisplayConfig` holds, as character sequences.
pub struct ConfigView {
    pub description: Seq<char>,
    pub status: Seq<char>,
    pub outputs: Seq<Seq<char>>,
}

impl View for DisplayConfig {
    type V = ConfigView;

    open spec fn view(&self) -> ConfigView {
        ConfigView {
            description: self.description@,
            status: self.status@,
            outputs: strings_view(self.outputs@),
        }
    }
}

/// The characters of each string.
pub open spec fn strings_view(lines: Seq<String>) -> Seq<Seq<char>> {
    lines.map_values(|l: String| l@)
}

/// The view of each record.
pub open spec fn configs_view(configs: Seq<DisplayConfig>) -> Seq<ConfigView> {
    configs.map_values(|c: DisplayConfig| c@)
}

/// A status text means enabled.
pub open spec fn is_enabled(status: Seq<char>) -> bool {
    eq_ignore_ascii_case(status, "Enabled"@)
}

/// The status as it is written back.
pub open spec fn canonical_status(status: Seq<char>) -> Seq<char> {
    if is_enabled(status) {
        "Enabled"@
    } else {
        "Disabled"@
    }
}

/// The records found so far, and the record whose lines are being read.
pub struct ParseState {
    pub done: Seq<ConfigView>,
    pub current: Option<ConfigView>,
}

/// The state before any line is read.
pub open spec fn initial_state() -> ParseState {
    ParseState { done: Seq::empty(), current: None }
}

/// The records of a state, the open one last.
pub open spec fn finish(st: ParseState) -> Seq<ConfigView> {
    match st.current {
        Some(c) => st.done.push(c),
        None => st.done,
    }
}

/// Reads one line: a header closes the open record and opens a new one; any
/// other line adds its uncommented text, if not empty, to the open record, and
/// is ignored where no record is open.
pub open spec fn parse_step(st: ParseState, line: Seq<char>) -> ParseState {
    match header_of(line) {
        Some((d, s)) => ParseState {
            done: finish(st),
            current: Some(ConfigView { description: d, status: s, outputs: Seq::empty() }),
        },
        None => match st.current {
            Some(c) => if uncomment(line).len() > 0 {
                ParseState {
                    done: st.done,
                    current: Some(
                        ConfigView {
                            description: c.description,
                            status: c.status,
                            outputs: c.outputs.push(uncomment(line)),
                        },
                    ),
                }
            } else {
                st
            },
            None => st,
        },
    }
}

/// The state after reading `lines` in order from `st`.
pub open spec fn parse_run(st: ParseState, lines: Seq<Seq<char>>) -> ParseState
    decreases lines.len(),
{
    if lines.len() == 0 {
        st
    } else {
        parse_step(parse_run(st, lines.drop_last()), lines.last())
    }
}

/// The records that a section's lines declare, in order.
pub open spec fn parse_section(lines: Seq<Seq<char>>) -> Seq<ConfigView> {
    finish(parse_run(initial_state(), lines))
}

/// The parse state that the parser's variables stand for.
pub open spec fn state_of(done: Seq<DisplayConfig>, current: Option<DisplayConfig>) -> ParseState {
    ParseState {
        done: configs_view(done),
        current: match current {
            Some(c) => Some(c@),
            None => None,
        },
    }
}

/// Reads the lines of a section into records, in one forward pass.
pub fn parse_configs(lines: &[String]) -> (r: Vec<DisplayConfig>)
    ensures
        configs_view(r@) == parse_section(strings_view(lines@)),
{
    let ghost all = strings_view(lines@);
    let mut done: Vec<DisplayConfig> = Vec::new();
    let mut current: Option<DisplayConfig> = None;
    let mut i: usize = 0;
    proof {
        assert(all.subrange(0, 0) =~= Seq::<Seq<char>>::empty());
        assert(configs_view(done@) =~= Seq::<ConfigView>::empty());
    }
    while i < lines.len()
        invariant
            all == strings_view(lines@),
            i <= lines@.len(),
            state_of(done@, current) == parse_run(initial_state(), all.subrange(0, i as int)),
        decreases lines.len() - i,
    {
        proof {
            assert(all.subrange(0, i + 1).drop_last() =~= all.subrange(0, i as int));
        }
        let ghost before = state_of(done@, current);
        let line = lines[i].as_str();
        match parse_header(line) {
            Some((d, st)) => {
                match current {
                    Some(c) => {
                        done.push(c);
                        proof {
                            assert(configs_view(done@) =~= before.done.push(c@));
                        }
                    },
                    None => {},
                }
                current = Some(DisplayConfig { description: d, status: st, outputs: Vec::new() });
                proof {
                    assert(strings_view(Seq::<String>::empty()) =~= Seq::<Seq<char>>::empty());
                }
            },
            None => {
                match current {
                    Some(c) => {
                        let t = uncomment_str(line);
                        let mut c = c;
                        let ghost old_outputs = c.outputs@;
                        if !t.as_str().is_empty() {
                            c.outputs.push(t);
                            proof {
                                assert(strings_view(c.outputs@) =~= strings_view(old_outputs).push(t@));
                            }
                        }
                        current = Some(c);
                    },
                    None => {
                        current = None;
                    },
                }
            },
        }
        i += 1;
    }
    proof {
        assert(all.subrange(0, lines@.len() as int) =~= all);
    }
    let ghost before = state_of(done@, current);
    match current {
        Some(c) => {
            done.push(c);
            proof {
                assert(configs_view(done@) =~= before.done.push(c@));
            }
        },
        None => {},
    }
    done
}

/// The text written for one directive line of a record.
pub open spec fn output_text(enabled: bool, o: Seq<char>) -> Seq<char> {
    if enabled {
        o
    } else {
        "# "@ + o
    }
}

/// The lines written for one record: its header with the canonical status,
/// then each directive, bare where the record is enabled and behind `# `
/// where it is not.
pub open spec fn record_lines(r: ConfigView) -> Seq<Seq<char>> {
    seq![header_text(r.description, canonical_status(r.status))] + r.outputs.map_values(
        |o: Seq<char>| output_text(is_enabled(r.status), o),
    )
}

/// The lines written for the records, in order, with no separator.
pub open spec fn serialize(rs: Seq<ConfigView>) -> Seq<Seq<char>>
    decreases rs.len(),
{
    if rs.len() == 0 {
        Seq::empty()
    } else {
        serialize(rs.drop_last()) + record_lines(rs.last())
    }
}

/// Whether a status text means enabled.
pub fn is_enabled_status(status: &str) -> (r: bool)
    ensures
        r == is_enabled(status@),
{
    eq_ignore_case_str(status, "Enabled")
}

impl DisplayConfig {
    /// Whether this record is enabled.
    pub fn is_enabled(&self) -> (r: bool)
        ensures
            r == is_enabled(self.status@),
    {
        is_enabled_status(self.status.as_str())
    }
}

/// Writes the records back as the lines of the section.
pub fn serialize_configs(configs: &[DisplayConfig]) -> (r: Vec<String>)
    ensures
        strings_view(r@) == serialize(configs_view(configs@)),
{
    let ghost all = configs_view(configs@);
    let mut r: Vec<String> = Vec::new();
    let mut i: usize = 0;
    proof {
        assert(all.subrange(0, 0) =~= Seq::<ConfigView>::empty());
        assert(strings_view(r@) =~= Seq::<Seq<char>>::empty());
    }
    while i < configs.len()
        invariant
            all == configs_view(configs@),
            i <= configs@.len(),
            strings_view(r@) == serialize(all.subrange(0, i as int)),
        decreases configs.len() - i,
    {
        let c = &configs[i];
        let enabled = c.is_enabled();
        let canon = if enabled {
            "Enabled"
        } else {
            "Disabled"
        };
        let ghost prev = strings_view(r@);
        r.push(format_header(c.description.as_str(), canon));
        let ghost base = strings_view(r@);
        proof {
            assert(base =~= prev.push(header_text(c@.description, canonical_status(c@.status))));
        }
        let ghost outs = c@.outputs;
        let mut j: usize = 0;
        proof {
            assert(base =~= base + outs.subrange(0, 0).map_values(|o: Seq<char>| output_text(enabled, o)));
        }
        while j < c.outputs.len()
            invariant
                c == &configs[i as int],
                outs == c@.outputs,
                j <= c.outputs@.len(),
                strings_view(r@) == base + outs.subrange(0, j as int).map_values(
                    |o: Seq<char>| output_text(enabled, o),
                ),
            decreases c.outputs.len() - j,
        {
            let o = &c.outputs[j];
            let line = if enabled {
                o.clone()
            } else {
                let mut t = "# ".to_string();
                t.append(o.as_str());
                t
            };
            let ghost before = strings_view(r@);
            r.push(line);
            proof {
                assert(outs[j as int] == o@);
                assert(strings_view(r@) =~= before.push(line@));
                assert(outs.subrange(0, j + 1).map_values(|o: Seq<char>| output_text(enabled, o))
                    =~= outs.subrange(0, j as int).map_values(|o: Seq<char>| output_text(enabled, o)).push(
                    output_text(enabled, outs[j as int]),
                ));
            }
            j += 1;
        }
        proof {
            let sub = all.subrange(0, i + 1);
            assert(sub.drop_last() =~= all.subrange(0, i as int));
            assert(sub.last() == c@);
            assert(outs.subrange(0, outs.len() as int) =~= outs);
            assert(strings_view(r@) =~= serialize(sub));
        }
        i += 1;
    }
    proof {
        assert(all.subrange(0, configs@.len() as int) =~= all);
    }
    r
}

/// The records with the one at `index` enabled and every other one disabled.
pub open spec fn activated(rs: Seq<ConfigView>, index: int) -> Seq<ConfigView> {
    Seq::new(
        rs.len(),
        |j: int|
            ConfigView {
                description: rs[j].description,
                status: if j == index {
                    "Enabled"@
                } else {
                    "Disabled"@
                },
                outputs: rs[j].outputs,
            },
    )
}

/// Enables the record at `index` and disables every other one; the
/// descriptions, the directives and the order of the records stay as they are.
pub fn activate(configs: &mut Vec<DisplayConfig>, index: usize)
    requires
        index < old(configs)@.len(),
    ensures
        final(configs)@.len() == old(configs)@.len(),
        forall|j: int|
            0 <= j < final(configs)@.len() ==> {
                &&& (#[trigger] final(configs)@[j])@.description == old(configs)@[j]@.description
                &&& final(configs)@[j]@.outputs == old(configs)@[j]@.outputs
                &&& final(configs)@[j]@.status == if j == index {
                    "Enabled"@
                } else {
                    "Disabled"@
                }
            },
        configs_view(final(configs)@) == activated(configs_view(old(configs)@), index as int),
{
    let n = configs.len();
    let mut i: usize = 0;
    while i < n
        invariant
            n == old(configs)@.len(),
            configs@.len() == n,
            index < n,
            i <= n,
            forall|j: int|
                0 <= j < n ==> {
                    &&& (#[trigger] configs@[j])@.description == old(configs)@[j]@.description
                    &&& configs@[j]@.outputs == old(configs)@[j]@.outputs
                },
            forall|j: int|
                0 <= j < i ==> (#[trigger] configs@[j])@.status == if j == index {
                    "Enabled"@
                } else {
                    "Disabled"@
                },
        decreases n - i,
    {
        if i == index {
            configs[i].status = "Enabled".to_string();
        } else {
            configs[i].status = "Disabled".to_string();
        }
        i += 1;
    }
    proof {
        assert(configs_view(configs@) =~= activated(configs_view(old(configs)@), index as int));
    }
}

} // verus!
