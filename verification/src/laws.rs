//! Laws the library keeps: the document's content determines its whole
//! representation, so parsing the same text twice yields equal documents.

use vstd::prelude::*;

use crate::document::{
    assoc_map, assoc_sorted, lemma_assoc_sorted_same_map, Ini,
};
use crate::parser::{spec_parse, spec_run, spec_step, spec_split_lines, spec_default_parser, spec_init_state, IniParser, SpecErr, SpecState};
use crate::document::{spec_ini_text, spec_section_text, spec_props_text, spec_prop_text};

verus! {

/// A well-formed document is determined by its content: two well-formed
/// documents mapping the same names to the same properties are equal.
pub proof fn lemma_content_determines_document(a: Ini, b: Ini)
    requires
        a.wf(),
        b.wf(),
        a.spec_map() == b.spec_map(),
    ensures
        a@ == b@,
{
    assert(assoc_sorted(a.entries())) by {
        assert forall|i: int, j: int|
            0 <= i < j < a.entries().len() implies crate::text::lex_lt(
            a.entries()[i].0,
            a.entries()[j].0,
        ) by {
            assert(a.entries()[i].0 == a@[i].0);
            assert(a.entries()[j].0 == a@[j].0);
        }
    }
    assert(assoc_sorted(b.entries())) by {
        assert forall|i: int, j: int|
            0 <= i < j < b.entries().len() implies crate::text::lex_lt(
            b.entries()[i].0,
            b.entries()[j].0,
        ) by {
            assert(b.entries()[i].0 == b@[i].0);
            assert(b.entries()[j].0 == b@[j].0);
        }
    }
    lemma_assoc_sorted_same_map(a.entries(), b.entries());
    assert(a@.len() == a.entries().len());
    assert(b@.len() == b.entries().len());
    assert forall|i: int| 0 <= i < a@.len() implies a@[i] == b@[i] by {
        assert(a.entries()[i] == b.entries()[i]);
        assert(a@[i].0 == b@[i].0);
        assert(assoc_map(a@[i].1) == assoc_map(b@[i].1));
        assert(assoc_sorted(a@[i].1));
        assert(assoc_sorted(b@[i].1));
        lemma_assoc_sorted_same_map(a@[i].1, b@[i].1);
    }
    assert(a@ =~= b@);
}

/// Parsing the same input twice yields equal documents: any two documents
/// the parser's contract admits for one input and one policy have equal
/// views — equality as the document's `==` means it.
pub proof fn lemma_parse_deterministic(p: IniParser, src: Seq<char>, a: Ini, b: Ini)
    requires
        a.wf(),
        b.wf(),
        spec_parse(p, src) == Ok::<Map<Seq<char>, Map<Seq<char>, Seq<char>>>, SpecErr>(
            a.spec_map(),
        ),
        spec_parse(p, src) == Ok::<Map<Seq<char>, Map<Seq<char>, Seq<char>>>, SpecErr>(
            b.spec_map(),
        ),
    ensures
        a@ == b@,
{
    lemma_content_determines_document(a, b);
}

} // verus!

verus! {

/// No occurrence of `c` anywhere in `s`.
pub open spec fn no_char(s: Seq<char>, c: char) -> bool {
    forall|i: int| 0 <= i < s.len() ==> s[i] != c
}

/// A sequence without newlines splits into itself alone.
proof fn lemma_split_single(s: Seq<char>)
    requires
        no_char(s, '\n'),
    ensures
        spec_split_lines(s) == seq![s],
{
    crate::text::lemma_find_at(s, '\n', s.len() as int);
}

/// Splitting distributes over a newline join.
proof fn lemma_split_concat(a: Seq<char>, b: Seq<char>)
    ensures
        spec_split_lines(a + seq!['\n'] + b) == spec_split_lines(a) + spec_split_lines(b),
    decreases a.len(),
{
    let w = a + seq!['\n'] + b;
    crate::text::lemma_find_props(a, '\n');
    let i = crate::text::spec_find(a, '\n');
    if i == a.len() {
        crate::text::lemma_find_at(w, '\n', a.len() as int);
        assert(w.subrange(0, a.len() as int) =~= a);
        assert(w.subrange(a.len() as int + 1, w.len() as int) =~= b);
        assert(spec_split_lines(a) == seq![a]);
        assert(spec_split_lines(w) == seq![a] + spec_split_lines(b));
    } else {
        assert(forall|k: int| 0 <= k < i ==> w[k] == a[k]);
        assert(w[i] == a[i]);
        crate::text::lemma_find_at(w, '\n', i);
        let a1 = a.subrange(i + 1, a.len() as int);
        assert(w.subrange(0, i) =~= a.subrange(0, i));
        assert(w.subrange(i + 1, w.len() as int) =~= a1 + seq!['\n'] + b);
        lemma_split_concat(a1, b);
        assert(spec_split_lines(w) == seq![a.subrange(0, i)] + (spec_split_lines(a1)
            + spec_split_lines(b)));
        assert(spec_split_lines(a) == seq![a.subrange(0, i)] + spec_split_lines(a1));
        assert(seq![a.subrange(0, i)] + (spec_split_lines(a1) + spec_split_lines(b)) =~= (
        seq![a.subrange(0, i)] + spec_split_lines(a1)) + spec_split_lines(b));
    }
}

/// Running over concatenated line lists runs over each in turn.
proof fn lemma_run_concat(p: IniParser, l1: Seq<Seq<char>>, l2: Seq<Seq<char>>, row: int, st: SpecState)
    ensures
        spec_run(p, l1 + l2, row, st) == (match spec_run(p, l1, row, st) {
            Ok(st2) => spec_run(p, l2, row + l1.len(), st2),
            Err(e) => Err(e),
        }),
    decreases l1.len(),
{
    if l1.len() == 0 {
        assert(l1 + l2 =~= l2);
    } else {
        let w = l1 + l2;
        assert(w[0] == l1[0]);
        assert(w.subrange(1, w.len() as int) =~= l1.subrange(1, l1.len() as int) + l2);
        match spec_step(p, st, row, l1[0]) {
            Ok(st2) => {
                lemma_run_concat(p, l1.subrange(1, l1.len() as int), l2, row + 1, st2);
            },
            Err(e) => {},
        }
    }
}

/// Joined section texts, taken apart at the front.
proof fn lemma_ini_text_front(v: Seq<(Seq<char>, Seq<(Seq<char>, Seq<char>)>)>)
    requires
        v.len() >= 2,
    ensures
        spec_ini_text(v) == spec_section_text(v[0]) + "\n"@ + spec_ini_text(
            v.subrange(1, v.len() as int),
        ),
    decreases v.len(),
{
    let rest = v.subrange(1, v.len() as int);
    if v.len() == 2 {
        assert(v.drop_last() =~= seq![v[0]]);
        assert(v.drop_last()[0] == v[0]);
        assert(rest =~= seq![v[1]]);
        assert(rest[0] == v[1]);
        assert(v.last() == v[1]);
        assert(spec_ini_text(v) == spec_ini_text(v.drop_last()) + "\n"@ + spec_section_text(
            v.last(),
        ));
        assert(spec_ini_text(v.drop_last()) == spec_section_text(v[0]));
        assert(spec_ini_text(rest) == spec_section_text(v[1]));
    } else {
        lemma_ini_text_front(v.drop_last());
        assert(v.drop_last()[0] == v[0]);
        assert(v.drop_last().subrange(1, v.drop_last().len() as int) =~= rest.drop_last());
        assert(rest.last() == v.last());
        assert(spec_ini_text(v) == spec_ini_text(v.drop_last()) + "\n"@ + spec_section_text(
            v.last(),
        ));
        assert(spec_ini_text(v.drop_last()) == spec_section_text(v[0]) + "\n"@ + spec_ini_text(
            rest.drop_last(),
        ));
        assert(spec_ini_text(rest) == spec_ini_text(rest.drop_last()) + "\n"@ + spec_section_text(
            rest.last(),
        ));
        assert((spec_section_text(v[0]) + "\n"@ + spec_ini_text(rest.drop_last())) + "\n"@
            + spec_section_text(v.last()) =~= spec_section_text(v[0]) + "\n"@ + (spec_ini_text(
            rest.drop_last(),
        ) + "\n"@ + spec_section_text(rest.last())));
    }
}

/// Joined property lines, taken apart at the front.
proof fn lemma_props_text_front(ps: Seq<(Seq<char>, Seq<char>)>)
    requires
        ps.len() >= 2,
    ensures
        spec_props_text(ps) == spec_prop_text(ps[0]) + "\n"@ + spec_props_text(
            ps.subrange(1, ps.len() as int),
        ),
    decreases ps.len(),
{
    let rest = ps.subrange(1, ps.len() as int);
    if ps.len() == 2 {
        assert(ps.drop_last() =~= seq![ps[0]]);
        assert(ps.drop_last()[0] == ps[0]);
        assert(rest =~= seq![ps[1]]);
        assert(rest[0] == ps[1]);
        assert(ps.last() == ps[1]);
    } else {
        lemma_props_text_front(ps.drop_last());
        assert(ps.drop_last()[0] == ps[0]);
        assert(ps.drop_last().subrange(1, ps.drop_last().len() as int) =~= rest.drop_last());
        assert(rest.last() == ps.last());
        assert(spec_props_text(ps) == spec_props_text(ps.drop_last()) + "\n"@ + spec_prop_text(
            ps.last(),
        ));
        assert(spec_props_text(ps.drop_last()) == spec_prop_text(ps[0]) + "\n"@ + spec_props_text(
            rest.drop_last(),
        ));
        assert(spec_props_text(rest) == spec_props_text(rest.drop_last()) + "\n"@ + spec_prop_text(
            rest.last(),
        ));
        assert((spec_prop_text(ps[0]) + "\n"@ + spec_props_text(rest.drop_last())) + "\n"@
            + spec_prop_text(ps.last()) =~= spec_prop_text(ps[0]) + "\n"@ + (spec_props_text(
            rest.drop_last(),
        ) + "\n"@ + spec_prop_text(rest.last())));
    }
}

} // verus!

verus! {

/// A value already equal to its own trim has no whitespace at either end.
proof fn lemma_trimmed_ends(s: Seq<char>)
    requires
        crate::text::spec_trim(s) == s,
    ensures
        crate::text::spec_trim_start(s) == s,
        crate::text::spec_trim_end(s) == s,
        s.len() > 0 ==> !crate::text::spec_is_ws(s[0]),
        s.len() > 0 ==> !crate::text::spec_is_ws(s[s.len() - 1]),
{
    crate::text::lemma_trim_end_is_prefix(s);
    let te = crate::text::spec_trim_end(s);
    crate::text::lemma_trim_start_is_suffix(te);
    assert(crate::text::spec_trim_start(te).len() <= te.len() <= s.len());
    assert(te =~= s);
    assert(crate::text::spec_trim_start(s) == s);
    if s.len() > 0 {
        if crate::text::spec_is_ws(s[0]) {
            let r = crate::text::spec_trim_start(s.subrange(1, s.len() as int));
            crate::text::lemma_trim_start_is_suffix(s.subrange(1, s.len() as int));
            assert(r.len() < s.len());
        }
        if crate::text::spec_is_ws(s[s.len() - 1]) {
            let r = crate::text::spec_trim_end(s.subrange(0, s.len() - 1));
            crate::text::lemma_trim_end_is_prefix(s.subrange(0, s.len() - 1));
            assert(r.len() < s.len());
        }
    }
}

/// A property whose rendering parses back: key and value are their own
/// trims, hold no newline, the key holds no colon and does not open a
/// comment, and the value does not open a multi-line marker.
pub open spec fn simple_entry(p: (Seq<char>, Seq<char>)) -> bool {
    &&& crate::text::spec_trim(p.0) == p.0
    &&& no_char(p.0, ':')
    &&& no_char(p.0, '\n')
    &&& (p.0.len() > 0 ==> p.0[0] != '#')
    &&& crate::text::spec_trim(p.1) == p.1
    &&& no_char(p.1, '\n')
    &&& !crate::text::spec_starts_marker(p.1, '"')
    &&& !crate::text::spec_starts_marker(p.1, '\'')
}

/// A section whose rendering parses back: the name holds neither colon
/// nor newline, and every property is simple.
pub open spec fn simple_section(s: (Seq<char>, Seq<(Seq<char>, Seq<char>)>)) -> bool {
    &&& no_char(s.0, ':')
    &&& no_char(s.0, '\n')
    &&& forall|i: int| 0 <= i < s.1.len() ==> simple_entry(#[trigger] s.1[i])
}

/// A document whose rendering parses back: every section is simple.
pub open spec fn simple_document(v: Seq<(Seq<char>, Seq<(Seq<char>, Seq<char>)>)>) -> bool {
    forall|i: int| 0 <= i < v.len() ==> simple_section(#[trigger] v[i])
}

/// The document after the section under construction, if any, is taken in.
pub open spec fn absorb(
    doc: Map<Seq<char>, Map<Seq<char>, Seq<char>>>,
    cur: Option<(Seq<char>, Map<Seq<char>, Seq<char>>)>,
) -> Map<Seq<char>, Map<Seq<char>, Seq<char>>> {
    match cur {
        Some(sec) => doc.insert(sec.0, sec.1),
        None => doc,
    }
}

/// An empty line leaves any multi-line-free state unchanged.
proof fn lemma_step_empty_line(
    doc: Map<Seq<char>, Map<Seq<char>, Seq<char>>>,
    cur: Option<(Seq<char>, Map<Seq<char>, Seq<char>>)>,
    row: int,
)
    ensures
        spec_step(
            spec_default_parser(),
            SpecState { doc, cur, multi: None },
            row,
            Seq::empty(),
        ) == Ok::<SpecState, SpecErr>(SpecState { doc, cur, multi: None }),
{
    let e = Seq::<char>::empty();
    assert(crate::text::spec_trim_end(e) == e);
    assert(crate::text::spec_trim_start(e) == e);
}

/// A rendered property line inserts its key and value into the open
/// section, under the default policy.
proof fn lemma_step_prop_line(
    doc: Map<Seq<char>, Map<Seq<char>, Seq<char>>>,
    sec: (Seq<char>, Map<Seq<char>, Seq<char>>),
    row: int,
    k: Seq<char>,
    v: Seq<char>,
)
    requires
        simple_entry((k, v)),
    ensures
        spec_step(
            spec_default_parser(),
            SpecState { doc, cur: Some(sec), multi: None },
            row,
            spec_prop_text((k, v)),
        ) == Ok::<SpecState, SpecErr>(
            SpecState { doc, cur: Some((sec.0, sec.1.insert(k, v))), multi: None },
        ),
{
    reveal_strlit(":");
    let line = spec_prop_text((k, v));
    assert(line == k + ":"@ + v);
    assert(line.len() == k.len() + 1 + v.len());
    assert(forall|i: int| 0 <= i < k.len() ==> line[i] == k[i]);
    assert(line[k.len() as int] == ':');
    assert(forall|j: int| 0 <= j < v.len() ==> line[k.len() + 1 + j] == v[j]);
    lemma_trimmed_ends(k);
    lemma_trimmed_ends(v);
    assert(!crate::text::spec_is_ws(':'));
    assert(!crate::text::spec_is_ws(line[0]));
    assert(!crate::text::spec_is_ws(line[line.len() - 1])) by {
        if v.len() > 0 {
            assert(line[line.len() - 1] == v[v.len() - 1]);
        } else {
            assert(line[line.len() - 1] == ':');
        }
    }
    crate::text::lemma_trim_of_trimmed(line);
    assert(line[0] != '#') by {
        if k.len() == 0 {
            assert(line[0] == ':');
        }
    }
    assert(crate::text::spec_find(line, ':') == k.len()) by {
        crate::text::lemma_find_at(line, ':', k.len() as int);
    }
    assert(line.subrange(0, k.len() as int) =~= k);
    assert(line.subrange(k.len() as int + 1, line.len() as int) =~= v);
}

/// A rendered header line finishes the section under construction, if
/// any, and opens an empty one with the given name.
proof fn lemma_step_header_line(
    doc: Map<Seq<char>, Map<Seq<char>, Seq<char>>>,
    cur: Option<(Seq<char>, Map<Seq<char>, Seq<char>>)>,
    row: int,
    name: Seq<char>,
)
    requires
        no_char(name, ':'),
        no_char(name, '\n'),
    ensures
        spec_step(
            spec_default_parser(),
            SpecState { doc, cur, multi: None },
            row,
            "["@ + name + "]"@,
        ) == Ok::<SpecState, SpecErr>(
            SpecState {
                doc: absorb(doc, cur),
                cur: Some((name, Map::<Seq<char>, Seq<char>>::empty())),
                multi: None,
            },
        ),
{
    reveal_strlit("[");
    reveal_strlit("]");
    let line = "["@ + name + "]"@;
    assert(line.len() == name.len() + 2);
    assert(line[0] == '[');
    assert(line[line.len() - 1] == ']');
    assert(forall|i: int| 0 <= i < name.len() ==> line[1 + i] == name[i]);
    assert(!crate::text::spec_is_ws('['));
    assert(!crate::text::spec_is_ws(']'));
    crate::text::lemma_trim_of_trimmed(line);
    assert(crate::parser::spec_is_header(line));
    assert(crate::parser::spec_header_name(line) =~= name);
    assert(crate::text::spec_find(line, ':') == line.len()) by {
        assert(forall|i: int| 0 <= i < line.len() ==> line[i] != ':') by {
            assert(forall|i: int| 1 <= i < line.len() - 1 ==> line[i] == name[i - 1]);
        }
        crate::text::lemma_find_at(line, ':', line.len() as int);
    }
}

} // verus!

verus! {

/// Properties inserted into a mapping, first to last.
pub open spec fn insert_props_all(
    m: Map<Seq<char>, Seq<char>>,
    ps: Seq<(Seq<char>, Seq<char>)>,
) -> Map<Seq<char>, Seq<char>>
    decreases ps.len(),
{
    if ps.len() == 0 {
        m
    } else {
        insert_props_all(m.insert(ps[0].0, ps[0].1), ps.subrange(1, ps.len() as int))
    }
}

/// Sections inserted into a document mapping, first to last.
pub open spec fn insert_sections_all(
    m: Map<Seq<char>, Map<Seq<char>, Seq<char>>>,
    v: Seq<(Seq<char>, Seq<(Seq<char>, Seq<char>)>)>,
) -> Map<Seq<char>, Map<Seq<char>, Seq<char>>>
    decreases v.len(),
{
    if v.len() == 0 {
        m
    } else {
        insert_sections_all(m.insert(v[0].0, assoc_map(v[0].1)), v.subrange(1, v.len() as int))
    }
}

proof fn lemma_insert_props_push(
    m: Map<Seq<char>, Seq<char>>,
    ps: Seq<(Seq<char>, Seq<char>)>,
    e: (Seq<char>, Seq<char>),
)
    ensures
        insert_props_all(m, ps.push(e)) == insert_props_all(m, ps).insert(e.0, e.1),
    decreases ps.len(),
{
    let w = ps.push(e);
    if ps.len() == 0 {
        assert(w[0] == e);
        assert(w.subrange(1, w.len() as int) =~= Seq::<(Seq<char>, Seq<char>)>::empty());
        assert(insert_props_all(
            m.insert(e.0, e.1),
            Seq::<(Seq<char>, Seq<char>)>::empty(),
        ) == m.insert(e.0, e.1));
    } else {
        assert(w[0] == ps[0]);
        assert(w.subrange(1, w.len() as int) =~= ps.subrange(1, ps.len() as int).push(e));
        lemma_insert_props_push(m.insert(ps[0].0, ps[0].1), ps.subrange(1, ps.len() as int), e);
    }
}

proof fn lemma_insert_props_is_assoc(ps: Seq<(Seq<char>, Seq<char>)>)
    ensures
        insert_props_all(Map::<Seq<char>, Seq<char>>::empty(), ps) == assoc_map(ps),
    decreases ps.len(),
{
    if ps.len() == 0 {
    } else {
        let dl = ps.drop_last();
        lemma_insert_props_is_assoc(dl);
        assert(ps =~= dl.push(ps.last()));
        lemma_insert_props_push(Map::<Seq<char>, Seq<char>>::empty(), dl, ps.last());
    }
}

proof fn lemma_insert_sections_push(
    m: Map<Seq<char>, Map<Seq<char>, Seq<char>>>,
    v: Seq<(Seq<char>, Seq<(Seq<char>, Seq<char>)>)>,
    e: (Seq<char>, Seq<(Seq<char>, Seq<char>)>),
)
    ensures
        insert_sections_all(m, v.push(e)) == insert_sections_all(m, v).insert(e.0, assoc_map(e.1)),
    decreases v.len(),
{
    let w = v.push(e);
    if v.len() == 0 {
        assert(w[0] == e);
        assert(w.subrange(1, w.len() as int) =~= Seq::<
            (Seq<char>, Seq<(Seq<char>, Seq<char>)>),
        >::empty());
        assert(insert_sections_all(
            m.insert(e.0, assoc_map(e.1)),
            Seq::<(Seq<char>, Seq<(Seq<char>, Seq<char>)>)>::empty(),
        ) == m.insert(e.0, assoc_map(e.1)));
    } else {
        assert(w[0] == v[0]);
        assert(w.subrange(1, w.len() as int) =~= v.subrange(1, v.len() as int).push(e));
        lemma_insert_sections_push(
            m.insert(v[0].0, assoc_map(v[0].1)),
            v.subrange(1, v.len() as int),
            e,
        );
    }
}

proof fn lemma_insert_sections_is_map(d: Ini)
    ensures
        insert_sections_all(
            Map::<Seq<char>, Map<Seq<char>, Seq<char>>>::empty(),
            d@,
        ) == d.spec_map(),
{
    lemma_insert_sections_entries(d@);
    assert(d@.map_values(
        |s: (Seq<char>, Seq<(Seq<char>, Seq<char>)>)| (s.0, assoc_map(s.1)),
    ) =~= d.entries());
}

proof fn lemma_insert_sections_entries(v: Seq<(Seq<char>, Seq<(Seq<char>, Seq<char>)>)>)
    ensures
        insert_sections_all(Map::<Seq<char>, Map<Seq<char>, Seq<char>>>::empty(), v) == assoc_map(
            v.map_values(|s: (Seq<char>, Seq<(Seq<char>, Seq<char>)>)| (s.0, assoc_map(s.1))),
        ),
    decreases v.len(),
{
    let es = v.map_values(|s: (Seq<char>, Seq<(Seq<char>, Seq<char>)>)| (s.0, assoc_map(s.1)));
    if v.len() == 0 {
        assert(es =~= Seq::<(Seq<char>, Map<Seq<char>, Seq<char>>)>::empty());
    } else {
        let dl = v.drop_last();
        lemma_insert_sections_entries(dl);
        assert(v =~= dl.push(v.last()));
        lemma_insert_sections_push(
            Map::<Seq<char>, Map<Seq<char>, Seq<char>>>::empty(),
            dl,
            v.last(),
        );
        let es_dl = dl.map_values(
            |s: (Seq<char>, Seq<(Seq<char>, Seq<char>)>)| (s.0, assoc_map(s.1)),
        );
        assert(es.drop_last() =~= es_dl);
        assert(es.last() == (v.last().0, assoc_map(v.last().1)));
    }
}

/// Running over the rendered property lines of an open section inserts
/// them all, first to last.
proof fn lemma_run_props(
    ps: Seq<(Seq<char>, Seq<char>)>,
    row: int,
    doc: Map<Seq<char>, Map<Seq<char>, Seq<char>>>,
    name: Seq<char>,
    m0: Map<Seq<char>, Seq<char>>,
)
    requires
        ps.len() >= 1,
        forall|i: int| 0 <= i < ps.len() ==> simple_entry(#[trigger] ps[i]),
    ensures
        spec_run(
            spec_default_parser(),
            spec_split_lines(spec_props_text(ps)),
            row,
            SpecState { doc, cur: Some((name, m0)), multi: None },
        ) == Ok::<SpecState, SpecErr>(
            SpecState { doc, cur: Some((name, insert_props_all(m0, ps))), multi: None },
        ),
    decreases ps.len(),
{
    reveal_strlit(":");
    reveal_strlit("\n");
    let p = spec_default_parser();
    let line0 = spec_prop_text(ps[0]);
    assert(no_char(line0, '\n')) by {
        assert(simple_entry(ps[0]));
        assert(forall|i: int| 0 <= i < ps[0].0.len() ==> line0[i] == ps[0].0[i]);
        assert(line0[ps[0].0.len() as int] == ':');
        assert(forall|j: int|
            0 <= j < ps[0].1.len() ==> line0[ps[0].0.len() as int + 1 + j] == ps[0].1[j]);
    }
    if ps.len() == 1 {
        lemma_split_single(line0);
        let lines = seq![line0];
        assert(spec_props_text(ps) == line0);
        lemma_step_prop_line(doc, (name, m0), row, ps[0].0, ps[0].1);
        let st1 = SpecState { doc, cur: Some((name, m0.insert(ps[0].0, ps[0].1))), multi: None };
        assert(lines[0] == line0);
        assert(lines.subrange(1, 1) =~= Seq::<Seq<char>>::empty());
        assert(spec_run(spec_default_parser(), Seq::<Seq<char>>::empty(), row + 1, st1) == Ok::<
            SpecState,
            SpecErr,
        >(st1));
        assert(ps.subrange(1, 1) =~= Seq::<(Seq<char>, Seq<char>)>::empty());
        assert(insert_props_all(
            m0.insert(ps[0].0, ps[0].1),
            Seq::<(Seq<char>, Seq<char>)>::empty(),
        ) == m0.insert(ps[0].0, ps[0].1));
        assert(insert_props_all(m0, ps) == m0.insert(ps[0].0, ps[0].1));
    } else {
        let rest = ps.subrange(1, ps.len() as int);
        lemma_props_text_front(ps);
        let rest_text = spec_props_text(rest);
        assert(spec_props_text(ps) =~= line0 + seq!['\n'] + rest_text);
        lemma_split_single(line0);
        lemma_split_concat(line0, rest_text);
        assert(spec_split_lines(spec_props_text(ps)) == seq![line0] + spec_split_lines(rest_text));
        let st0 = SpecState { doc, cur: Some((name, m0)), multi: None };
        lemma_run_concat(p, seq![line0], spec_split_lines(rest_text), row, st0);
        lemma_step_prop_line(doc, (name, m0), row, ps[0].0, ps[0].1);
        let m1 = m0.insert(ps[0].0, ps[0].1);
        let st1 = SpecState { doc, cur: Some((name, m1)), multi: None };
        assert(seq![line0][0] == line0);
        assert(seq![line0].subrange(1, 1) =~= Seq::<Seq<char>>::empty());
        assert(spec_run(p, Seq::<Seq<char>>::empty(), row + 1, st1) == Ok::<SpecState, SpecErr>(
            st1,
        ));
        assert(spec_run(p, seq![line0], row, st0) == Ok::<SpecState, SpecErr>(st1));
        assert(forall|i: int| 0 <= i < rest.len() ==> simple_entry(#[trigger] rest[i])) by {
            assert(forall|i: int| 0 <= i < rest.len() ==> rest[i] == ps[i + 1]);
        }
        lemma_run_props(rest, row + 1, doc, name, m1);
        assert(insert_props_all(m0, ps) == insert_props_all(m1, rest));
    }
}

/// Running over one rendered section finishes the section under
/// construction and leaves the new one open with all its properties.
proof fn lemma_run_one_section(
    s: (Seq<char>, Seq<(Seq<char>, Seq<char>)>),
    row: int,
    doc: Map<Seq<char>, Map<Seq<char>, Seq<char>>>,
    cur: Option<(Seq<char>, Map<Seq<char>, Seq<char>>)>,
)
    requires
        simple_section(s),
    ensures
        spec_run(
            spec_default_parser(),
            spec_split_lines(spec_section_text(s)),
            row,
            SpecState { doc, cur, multi: None },
        ) == Ok::<SpecState, SpecErr>(
            SpecState { doc: absorb(doc, cur), cur: Some((s.0, assoc_map(s.1))), multi: None },
        ),
{
    reveal_strlit("[");
    reveal_strlit("]");
    reveal_strlit("]\n");
    reveal_strlit("\n");
    let p = spec_default_parser();
    let header = "["@ + s.0 + "]"@;
    let ptext = spec_props_text(s.1);
    assert(spec_section_text(s) =~= header + seq!['\n'] + ptext);
    assert(no_char(header, '\n')) by {
        assert(forall|i: int| 0 <= i < s.0.len() ==> header[1 + i] == s.0[i]);
        assert(header[0] == '[');
        assert(header[header.len() - 1] == ']');
    }
    lemma_split_single(header);
    lemma_split_concat(header, ptext);
    assert(spec_split_lines(spec_section_text(s)) == seq![header] + spec_split_lines(ptext));
    let st0 = SpecState { doc, cur, multi: None };
    lemma_run_concat(p, seq![header], spec_split_lines(ptext), row, st0);
    lemma_step_header_line(doc, cur, row, s.0);
    let st1 = SpecState {
        doc: absorb(doc, cur),
        cur: Some((s.0, Map::<Seq<char>, Seq<char>>::empty())),
        multi: None,
    };
    assert(seq![header][0] == header);
    assert(seq![header].subrange(1, 1) =~= Seq::<Seq<char>>::empty());
    assert(spec_run(p, Seq::<Seq<char>>::empty(), row + 1, st1) == Ok::<SpecState, SpecErr>(st1));
    assert(spec_run(p, seq![header], row, st0) == Ok::<SpecState, SpecErr>(st1));
    if s.1.len() == 0 {
        assert(ptext == Seq::<char>::empty());
        assert(no_char(ptext, '\n'));
        lemma_split_single(ptext);
        lemma_step_empty_line(st1.doc, st1.cur, row + 1);
        assert(seq![ptext][0] == ptext);
        assert(seq![ptext].subrange(1, 1) =~= Seq::<Seq<char>>::empty());
        assert(spec_run(p, Seq::<Seq<char>>::empty(), row + 2, st1) == Ok::<SpecState, SpecErr>(
            st1,
        ));
        assert(spec_run(p, seq![ptext], row + 1, st1) == Ok::<SpecState, SpecErr>(st1));
        assert(assoc_map(s.1) =~= Map::<Seq<char>, Seq<char>>::empty());
    } else {
        lemma_run_props(s.1, row + 1, st1.doc, s.0, Map::<Seq<char>, Seq<char>>::empty());
        lemma_insert_props_is_assoc(s.1);
    }
}

/// Running over a rendered document leaves the last section open and all
/// earlier ones in the document mapping.
proof fn lemma_run_sections(
    v: Seq<(Seq<char>, Seq<(Seq<char>, Seq<char>)>)>,
    row: int,
    doc: Map<Seq<char>, Map<Seq<char>, Seq<char>>>,
    cur: Option<(Seq<char>, Map<Seq<char>, Seq<char>>)>,
)
    requires
        v.len() >= 1,
        simple_document(v),
    ensures
        spec_run(
            spec_default_parser(),
            spec_split_lines(spec_ini_text(v)),
            row,
            SpecState { doc, cur, multi: None },
        ) == Ok::<SpecState, SpecErr>(
            SpecState {
                doc: insert_sections_all(absorb(doc, cur), v.drop_last()),
                cur: Some((v.last().0, assoc_map(v.last().1))),
                multi: None,
            },
        ),
    decreases v.len(),
{
    reveal_strlit("\n");
    let p = spec_default_parser();
    if v.len() == 1 {
        assert(spec_ini_text(v) == spec_section_text(v[0]));
        assert(simple_section(v[0]));
        lemma_run_one_section(v[0], row, doc, cur);
        assert(v.drop_last() =~= Seq::<(Seq<char>, Seq<(Seq<char>, Seq<char>)>)>::empty());
        assert(v.last() == v[0]);
    } else {
        let rest = v.subrange(1, v.len() as int);
        lemma_ini_text_front(v);
        let sec0 = spec_section_text(v[0]);
        let rest_text = spec_ini_text(rest);
        assert(spec_ini_text(v) =~= sec0 + seq!['\n'] + rest_text);
        lemma_split_concat(sec0, rest_text);
        let st0 = SpecState { doc, cur, multi: None };
        lemma_run_concat(p, spec_split_lines(sec0), spec_split_lines(rest_text), row, st0);
        assert(simple_section(v[0]));
        lemma_run_one_section(v[0], row, doc, cur);
        let st1 = SpecState {
            doc: absorb(doc, cur),
            cur: Some((v[0].0, assoc_map(v[0].1))),
            multi: None,
        };
        assert(simple_document(rest)) by {
            assert(forall|i: int| 0 <= i < rest.len() ==> rest[i] == v[i + 1]);
        }
        lemma_run_sections(rest, row + spec_split_lines(sec0).len(), st1.doc, st1.cur);
        assert(absorb(st1.doc, st1.cur) == absorb(doc, cur).insert(v[0].0, assoc_map(v[0].1)));
        assert(insert_sections_all(absorb(doc, cur), v.drop_last()) == insert_sections_all(
            absorb(doc, cur).insert(v[0].0, assoc_map(v[0].1)),
            rest.drop_last(),
        )) by {
            assert(v.drop_last().len() == v.len() - 1 >= 1);
            assert(v.drop_last()[0] == v[0]);
            assert(v.drop_last().subrange(1, v.len() - 1) =~= rest.drop_last());
        }
        assert(rest.last() == v.last());
    }
}

/// Rendering a well-formed document of single-line properties and parsing
/// the text back, under the default policy, succeeds and yields the same
/// content; with `lemma_content_determines_document`, the re-parsed
/// document equals the original.
pub proof fn lemma_render_parse_round_trip(d: Ini)
    requires
        d.wf(),
        simple_document(d@),
    ensures
        spec_parse(spec_default_parser(), spec_ini_text(d@)) == Ok::<
            Map<Seq<char>, Map<Seq<char>, Seq<char>>>,
            SpecErr,
        >(d.spec_map()),
{
    let p = spec_default_parser();
    if d@.len() == 0 {
        let e = Seq::<char>::empty();
        assert(spec_ini_text(d@) == e);
        assert(no_char(e, '\n'));
        lemma_split_single(e);
        lemma_step_empty_line(Map::<Seq<char>, Map<Seq<char>, Seq<char>>>::empty(), None, 1);
        assert(seq![e][0] == e);
        assert(seq![e].subrange(1, 1) =~= Seq::<Seq<char>>::empty());
        assert(spec_run(p, Seq::<Seq<char>>::empty(), 2, spec_init_state()) == Ok::<
            SpecState,
            SpecErr,
        >(spec_init_state()));
        assert(spec_run(p, seq![e], 1, spec_init_state()) == Ok::<SpecState, SpecErr>(
            spec_init_state(),
        ));
        assert(d.entries() =~= Seq::<(Seq<char>, Map<Seq<char>, Seq<char>>)>::empty());
        assert(d.spec_map() =~= Map::<Seq<char>, Map<Seq<char>, Seq<char>>>::empty());
    } else {
        lemma_run_sections(d@, 1, Map::<Seq<char>, Map<Seq<char>, Seq<char>>>::empty(), None);
        let st = SpecState {
            doc: insert_sections_all(
                Map::<Seq<char>, Map<Seq<char>, Seq<char>>>::empty(),
                d@.drop_last(),
            ),
            cur: Some((d@.last().0, assoc_map(d@.last().1))),
            multi: None,
        };
        lemma_insert_sections_push(
            Map::<Seq<char>, Map<Seq<char>, Seq<char>>>::empty(),
            d@.drop_last(),
            d@.last(),
        );
        assert(d@.drop_last().push(d@.last()) =~= d@);
        lemma_insert_sections_is_map(d);
    }
}

} // verus!

verus! {

/// Round trip: re-parsing the rendering of a well-formed document of
/// single-line properties yields an equal document — any document the
/// parser's contract admits for the rendered text has the original's view.
pub proof fn lemma_round_trip_equal(d: Ini, d2: Ini)
    requires
        d.wf(),
        simple_document(d@),
        d2.wf(),
        spec_parse(spec_default_parser(), spec_ini_text(d@)) == Ok::<
            Map<Seq<char>, Map<Seq<char>, Seq<char>>>,
            SpecErr,
        >(d2.spec_map()),
    ensures
        d2@ == d@,
{
    lemma_render_parse_round_trip(d);
    lemma_content_determines_document(d2, d);
}

} // verus!
