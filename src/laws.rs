//! What holds of the parser, the serializer and the rewrite taken together.

use vstd::prelude::*;
use crate::config::{
    activated, canonical_status, finish, initial_state, is_enabled, output_text, parse_run,
    parse_section, parse_step, record_lines, serialize, ConfigView, ParseState,
};
use crate::header::{
    description_key, fields_at, header_at, header_fields, header_from, header_of, header_text,
    next_comma, status_key,
};
use crate::section::{rewritten, section_bounds, splice};
use crate::text::{drop_hashes, is_white, trim, trim_start, uncomment};

verus! {

/// A text that a header carries unchanged: not empty, without commas, and
/// without whitespace at either end.
pub open spec fn is_field_text(s: Seq<char>) -> bool {
    &&& s.len() > 0
    &&& forall|i: int| 0 <= i < s.len() ==> #[trigger] s[i] != ','
    &&& !is_white(s[0])
    &&& !is_white(s.last())
}

/// A directive that reads back as itself, bare or behind `# `: not empty, not
/// starting with `#` or whitespace, and not taken for a header either way.
pub open spec fn is_directive_text(o: Seq<char>) -> bool {
    &&& o.len() > 0
    &&& o[0] != '#'
    &&& !is_white(o[0])
    &&& header_fields(o) is None
    &&& header_fields("# "@ + o) is None
}

/// A record that the serializer writes and the parser reads back alike.
pub open spec fn is_well_formed(r: ConfigView) -> bool {
    &&& is_field_text(r.description)
    &&& (r.status == "Enabled"@ || r.status == "Disabled"@)
    &&& forall|k: int| 0 <= k < r.outputs.len() ==> is_directive_text(#[trigger] r.outputs[k])
}

proof fn lemma_run_append(st: ParseState, a: Seq<Seq<char>>, b: Seq<Seq<char>>)
    ensures
        parse_run(st, a + b) == parse_run(parse_run(st, a), b),
    decreases b.len(),
{
    if b.len() == 0 {
        assert(a + b =~= a);
    } else {
        assert((a + b).drop_last() =~= a + b.drop_last());
        lemma_run_append(st, a, b.drop_last());
    }
}

proof fn lemma_next_comma(s: Seq<char>, i: int, j: int)
    requires
        0 <= i <= j <= s.len(),
        forall|k: int| i <= k < j ==> #[trigger] s[k] != ',',
        j == s.len() || s[j] == ',',
    ensures
        next_comma(s, i) == j,
    decreases j - i,
{
    if i < j {
        lemma_next_comma(s, i + 1, j);
    }
}

proof fn lemma_trim_field(s: Seq<char>)
    requires
        s.len() > 0,
        !is_white(s[0]),
        !is_white(s.last()),
    ensures
        trim(s) == s,
{
}

proof fn lemma_status_texts()
    ensures
        "Enabled"@.len() == 7,
        "Disabled"@.len() == 8,
        is_field_text("Enabled"@),
        is_field_text("Disabled"@),
        is_enabled("Enabled"@),
        !is_enabled("Disabled"@),
        canonical_status("Enabled"@) == "Enabled"@,
        canonical_status("Disabled"@) == "Disabled"@,
{
    reveal_strlit("Enabled");
    reveal_strlit("Disabled");
    assert(is_white('E') == false);
    assert(is_white('d') == false);
}

proof fn lemma_header_line(d: Seq<char>, st: Seq<char>)
    requires
        is_field_text(d),
        is_field_text(st),
    ensures
        header_of(header_text(d, st)) == Some((d, st)),
{
    reveal_strlit("# Description = ");
    reveal_strlit(", Status = ");
    let h = header_text(d, st);
    let dk = description_key();
    let sk = status_key();
    assert(dk.len() == 16);
    assert(sk.len() == 11);
    let c: int = 16 + d.len() as int;
    let e: int = c + 11;
    assert(h.subrange(0, 16) =~= dk);
    assert(h.subrange(16, c) =~= d);
    assert(h.subrange(c, e) =~= sk);
    assert(h.subrange(e, h.len() as int) =~= st);
    assert(h.len() == e + st.len());
    assert forall|k: int| 16 <= k < c implies #[trigger] h[k] != ',' by {
        assert(h[k] == d[k - 16]);
    }
    assert(h[c] == ',');
    lemma_next_comma(h, 16, c);
    assert forall|k: int| e <= k < h.len() implies #[trigger] h[k] != ',' by {
        assert(h[k] == st[k - e]);
    }
    lemma_next_comma(h, e, h.len() as int);
    assert(h[e] == st[0]);
    assert(header_at(h, 0));
    assert(fields_at(h, 0) == (d, st));
    assert(header_from(h, 0) == Some((d, st)));
    lemma_trim_field(d);
    lemma_trim_field(st);
}

proof fn lemma_directive_line(o: Seq<char>, enabled: bool)
    requires
        is_directive_text(o),
    ensures
        header_of(output_text(enabled, o)) is None,
        uncomment(output_text(enabled, o)) == o,
{
    reveal_strlit("# ");
    if !enabled {
        let l = "# "@ + o;
        assert(l.drop_first() =~= seq![' '] + o);
        assert((seq![' '] + o).drop_first() =~= o);
        assert(l[0] == '#');
        assert(drop_hashes(seq![' '] + o) == seq![' '] + o);
        assert(drop_hashes(l) == seq![' '] + o);
        assert(is_white(' '));
        assert(trim_start(seq![' '] + o) == trim_start(o));
        assert(trim_start(o) == o);
    }
}

proof fn lemma_record_read(st: ParseState, r: ConfigView)
    requires
        is_well_formed(r),
    ensures
        parse_run(st, record_lines(r)) == (ParseState { done: finish(st), current: Some(r) }),
{
    lemma_status_texts();
    let en = is_enabled(r.status);
    let h = header_text(r.description, canonical_status(r.status));
    lemma_header_line(r.description, r.status);
    let outs = r.outputs.map_values(|o: Seq<char>| output_text(en, o));
    let st1 = parse_step(st, h);
    assert(parse_run(st, seq![h]) == st1) by {
        assert(seq![h].drop_last() =~= Seq::<Seq<char>>::empty());
        assert(parse_run(st, Seq::<Seq<char>>::empty()) == st);
        assert(seq![h].last() == h);
    }
    assert forall|k: int| 0 <= k <= outs.len() implies #[trigger] parse_run(st1, outs.subrange(0, k)) == (
    ParseState {
        done: finish(st),
        current: Some(
            ConfigView { description: r.description, status: r.status, outputs: r.outputs.subrange(0, k) },
        ),
    }) by {
        lemma_outputs_read(st, r, k);
    }
    lemma_run_append(st, seq![h], outs);
    assert(record_lines(r) =~= seq![h] + outs);
    assert(outs.subrange(0, outs.len() as int) =~= outs);
    assert(r.outputs.subrange(0, r.outputs.len() as int) =~= r.outputs);
}

proof fn lemma_outputs_read(st: ParseState, r: ConfigView, k: int)
    requires
        is_well_formed(r),
        0 <= k <= r.outputs.len(),
    ensures
        ({
            let en = is_enabled(r.status);
            let outs = r.outputs.map_values(|o: Seq<char>| output_text(en, o));
            let st1 = parse_step(st, header_text(r.description, canonical_status(r.status)));
            parse_run(st1, outs.subrange(0, k)) == (ParseState {
                done: finish(st),
                current: Some(
                    ConfigView {
                        description: r.description,
                        status: r.status,
                        outputs: r.outputs.subrange(0, k),
                    },
                ),
            })
        }),
    decreases k,
{
    lemma_status_texts();
    lemma_header_line(r.description, r.status);
    let en = is_enabled(r.status);
    let outs = r.outputs.map_values(|o: Seq<char>| output_text(en, o));
    if k == 0 {
        assert(outs.subrange(0, 0) =~= Seq::<Seq<char>>::empty());
        assert(r.outputs.subrange(0, 0) =~= Seq::<Seq<char>>::empty());
    } else {
        lemma_outputs_read(st, r, k - 1);
        assert(outs.subrange(0, k).drop_last() =~= outs.subrange(0, k - 1));
        let o = r.outputs[k - 1];
        assert(is_directive_text(o));
        lemma_directive_line(o, en);
        assert(r.outputs.subrange(0, k - 1).push(o) =~= r.outputs.subrange(0, k));
    }
}

proof fn lemma_serialized_read(rs: Seq<ConfigView>)
    requires
        forall|i: int| 0 <= i < rs.len() ==> is_well_formed(#[trigger] rs[i]),
    ensures
        finish(parse_run(initial_state(), serialize(rs))) == rs,
        rs.len() > 0 ==> parse_run(initial_state(), serialize(rs)) == (ParseState {
            done: rs.drop_last(),
            current: Some(rs.last()),
        }),
    decreases rs.len(),
{
    if rs.len() == 0 {
        assert(finish(initial_state()) =~= rs);
    } else {
        let front = rs.drop_last();
        lemma_serialized_read(front);
        let st = parse_run(initial_state(), serialize(front));
        assert(finish(st) == front);
        lemma_run_append(initial_state(), serialize(front), record_lines(rs.last()));
        lemma_record_read(st, rs.last());
        assert(front.push(rs.last()) =~= rs);
    }
}

/// Writing well-formed records and reading the lines back gives the same
/// records, in the same order.
pub proof fn lemma_round_trip(rs: Seq<ConfigView>)
    requires
        forall|i: int| 0 <= i < rs.len() ==> is_well_formed(#[trigger] rs[i]),
    ensures
        parse_section(serialize(rs)) == rs,
{
    lemma_serialized_read(rs);
}

/// After enabling the record at `index`, that record is the only one whose
/// status reads as enabled.
pub proof fn lemma_single_enabled(rs: Seq<ConfigView>, index: int)
    requires
        0 <= index < rs.len(),
    ensures
        activated(rs, index).len() == rs.len(),
        forall|j: int|
            0 <= j < rs.len() ==> (is_enabled(#[trigger] activated(rs, index)[j].status) <==> j
                == index),
{
    lemma_status_texts();
}

/// Enabling a record keeps the records in their order, and each record's
/// description and directives as they were.
pub proof fn lemma_order_kept(rs: Seq<ConfigView>, index: int)
    ensures
        activated(rs, index).len() == rs.len(),
        forall|j: int|
            0 <= j < rs.len() ==> (#[trigger] activated(rs, index)[j]).description == rs[j].description
                && activated(rs, index)[j].outputs == rs[j].outputs,
{
}

/// A rewrite leaves the marker lines, and every line before the start marker
/// or after the end marker, exactly as they were.
pub proof fn lemma_markers_kept(lines: Seq<Seq<char>>, index: int)
    requires
        rewritten(lines, index) is Ok,
    ensures
        ({
            let (s, e) = section_bounds(lines)->Ok_0;
            let out = rewritten(lines, index)->Ok_0;
            let tail = lines.len() - e;
            &&& 0 <= s < e < lines.len()
            &&& out.subrange(0, s + 1) == lines.subrange(0, s + 1)
            &&& out.subrange(out.len() - tail, out.len() as int) == lines.subrange(e, lines.len() as int)
        }),
{
    let (s, e) = section_bounds(lines)->Ok_0;
    lemma_bounds_in_range(lines);
    let records = parse_section(lines.subrange(s + 1, e));
    let section = serialize(activated(records, index));
    let out = splice(lines, s, e, section);
    assert(out.subrange(0, s + 1) =~= lines.subrange(0, s + 1));
    let tail = lines.len() - e;
    assert(out.subrange(out.len() - tail, out.len() as int) =~= lines.subrange(e, lines.len() as int));
}

proof fn lemma_bounds_in_range(lines: Seq<Seq<char>>)
    requires
        section_bounds(lines) is Ok,
    ensures
        0 <= section_bounds(lines)->Ok_0.0 < section_bounds(lines)->Ok_0.1 < lines.len(),
{
    crate::section::lemma_marker_found(lines, crate::section::END_MARKER@, 0);
    crate::section::lemma_marker_found(lines, crate::section::START_MARKER@, 0);
}

/// However many `#` characters and whitespace a directive line starts with,
/// its text is read without them, and a disabled record writes it back
/// behind exactly `# `.
pub proof fn lemma_comment_normalized(hashes: nat, space: Seq<char>, text: Seq<char>)
    requires
        forall|i: int| 0 <= i < space.len() ==> is_white(#[trigger] space[i]),
        text.len() > 0,
        text[0] != '#',
        !is_white(text[0]),
    ensures
        uncomment(Seq::new(hashes, |i: int| '#') + space + text) == text,
        output_text(false, uncomment(Seq::new(hashes, |i: int| '#') + space + text)) == "# "@ + text,
{
    lemma_drop_hashes(hashes, space + text);
    assert(Seq::new(hashes, |i: int| '#') + space + text =~= Seq::new(hashes, |i: int| '#') + (space
        + text));
    lemma_trim_space(space, text);
}

proof fn lemma_drop_hashes(hashes: nat, rest: Seq<char>)
    requires
        rest.len() == 0 || rest[0] != '#',
    ensures
        drop_hashes(Seq::new(hashes, |i: int| '#') + rest) == rest,
    decreases hashes,
{
    if hashes == 0 {
        assert(Seq::new(0, |i: int| '#') + rest =~= rest);
    } else {
        let l = Seq::new(hashes, |i: int| '#') + rest;
        assert(l.drop_first() =~= Seq::new((hashes - 1) as nat, |i: int| '#') + rest);
        lemma_drop_hashes((hashes - 1) as nat, rest);
    }
}

proof fn lemma_trim_space(space: Seq<char>, text: Seq<char>)
    requires
        forall|i: int| 0 <= i < space.len() ==> is_white(#[trigger] space[i]),
        text.len() > 0,
        !is_white(text[0]),
    ensures
        trim_start(space + text) == text,
    decreases space.len(),
{
    if space.len() == 0 {
        assert(space + text =~= text);
    } else {
        assert((space + text).drop_first() =~= space.drop_first() + text);
        assert((space + text)[0] == space[0]);
        lemma_trim_space(space.drop_first(), text);
    }
}

/// Every directive line of a disabled record is written as `# ` and the
/// directive, right after the record's header.
pub proof fn lemma_disabled_lines(r: ConfigView)
    requires
        !is_enabled(r.status),
    ensures
        record_lines(r).len() == r.outputs.len() + 1,
        forall|k: int| 0 <= k < r.outputs.len() ==> #[trigger] record_lines(r)[k + 1] == "# "@ + r.outputs[k],
{
}

} // verus!
