//! The line-oriented parser: walks the source text line by line, keeping
//! the section under construction and an optional in-progress multi-line
//! value, and yields either a complete document or the first fatal
//! anomaly, classified and localized. Which anomalies are fatal is chosen
//! by four independent policy switches.
//!
//! The whole machine is stated once more at the specification level
//! (`spec_step`, `spec_run`, `spec_parse`); `IniParser::parse` is proved
//! to return exactly what that machine yields.

use vstd::prelude::*;

use crate::document::{assoc_map, Ini, IniProperty, IniSection};
use crate::position::{GPos, GRange, Position, Range};
use crate::text::{
    ends_with_marker, spec_ends_marker, spec_find, spec_starts_marker, spec_trim,
    spec_trim_end, spec_trim_start, starts_with_marker, str_find_from, str_trim,
    str_trim_end, str_trim_start, lemma_trim_start_is_suffix, lemma_trim_end_is_prefix,
};

verus! {

/// The classification of a parse failure.
#[derive(Debug, Eq, PartialEq, Clone, Copy, Hash, Structural)]
pub enum IniParseErrorType {
    EndlessMultiline,
    RepeatedKey,
    UnknownLineInSection,
    UnknownLineBeforeAnySection,
    Unknown,
}

impl IniParseErrorType {
    /// The classification's name.
    pub fn to_display_string(&self) -> (r: String)
        ensures
            r@ == spec_error_type_string(*self),
    {
        match self {
            IniParseErrorType::Unknown => String::from_str("Unknown"),
            IniParseErrorType::UnknownLineBeforeAnySection => String::from_str(
                "UnknownLineBeforeAnySection",
            ),
            IniParseErrorType::UnknownLineInSection => String::from_str("UnknownLineInSection"),
            IniParseErrorType::RepeatedKey => String::from_str("RepeatedKey"),
            IniParseErrorType::EndlessMultiline => String::from_str("EndlessMultiline"),
        }
    }
}

/// The name of each error classification.
pub open spec fn spec_error_type_string(t: IniParseErrorType) -> Seq<char> {
    match t {
        IniParseErrorType::Unknown => "Unknown"@,
        IniParseErrorType::UnknownLineBeforeAnySection => "UnknownLineBeforeAnySection"@,
        IniParseErrorType::UnknownLineInSection => "UnknownLineInSection"@,
        IniParseErrorType::RepeatedKey => "RepeatedKey"@,
        IniParseErrorType::EndlessMultiline => "EndlessMultiline"@,
    }
}

/// A parse failure: its classification, the source span it points at, and
/// a message (presently always empty).
#[derive(Debug)]
pub struct IniParseError {
    pub typ: IniParseErrorType,
    pub range: Range,
    pub msg: String,
}

impl PartialEq for IniParseError {
    fn eq(&self, other: &IniParseError) -> (r: bool) {
        self.typ == other.typ && self.range == other.range && self.msg == other.msg
    }
}

impl vstd::std_specs::cmp::PartialEqSpecImpl for IniParseError {
    open spec fn obeys_eq_spec() -> bool {
        true
    }

    open spec fn eq_spec(&self, other: &IniParseError) -> bool {
        self.typ == other.typ && self.range == other.range && self.msg@ == other.msg@
    }
}

/// The text `type:T, range:R, msg:M`.
pub open spec fn spec_error_string(typ: IniParseErrorType, range: GRange, msg: Seq<char>) -> Seq<
    char,
> {
    "type:"@ + spec_error_type_string(typ) + ", range:"@ + crate::position::spec_range_string(range)
        + ", msg:"@ + msg
}

impl IniParseError {
    /// Renders the failure as `type:T, range:R, msg:M`.
    pub fn to_display_string(&self) -> (r: String)
        ensures
            r@ == spec_error_string(self.typ, self.range@, self.msg@),
    {
        let mut s = String::from_str("type:");
        s.append(self.typ.to_display_string().as_str());
        s.append(", range:");
        s.append(self.range.to_display_string().as_str());
        s.append(", msg:");
        s.append(self.msg.as_str());
        s
    }
}

/// The four switches that decide which anomalies abort a parse.
#[derive(Debug, Clone, Copy, PartialEq, Eq, Structural)]
pub struct IniParser {
    pub error_if_unknown_line_before_any_section: bool,
    pub error_if_unknown_line_in_section: bool,
    pub error_if_repeated_key: bool,
    pub error_if_endless_multiline: bool,
}

/// The default policy: unknown lines and an unterminated multi-line value
/// are errors; repeated keys are tolerated.
pub open spec fn spec_default_parser() -> IniParser {
    IniParser {
        error_if_unknown_line_before_any_section: true,
        error_if_unknown_line_in_section: true,
        error_if_repeated_key: false,
        error_if_endless_multiline: true,
    }
}

impl Default for IniParser {
    /// The default policy.
    fn default() -> (r: IniParser)
        ensures
            r == spec_default_parser(),
    {
        IniParser {
            error_if_unknown_line_before_any_section: true,
            error_if_unknown_line_in_section: true,
            error_if_repeated_key: false,
            error_if_endless_multiline: true,
        }
    }
}

/// A failure at the specification level.
pub struct SpecErr {
    pub typ: IniParseErrorType,
    pub range: GRange,
}

/// An in-progress multi-line value at the specification level.
pub struct SpecMulti {
    pub q: char,
    pub range: GRange,
    pub key: Seq<char>,
    pub val: Seq<char>,
}

/// The parser's transient state between lines.
pub struct SpecState {
    pub doc: Map<Seq<char>, Map<Seq<char>, Seq<char>>>,
    pub cur: Option<(Seq<char>, Map<Seq<char>, Seq<char>>)>,
    pub multi: Option<SpecMulti>,
}

/// The state before the first line.
pub open spec fn spec_init_state() -> SpecState {
    SpecState {
        doc: Map::empty(),
        cur: None,
        multi: None,
    }
}

/// A trimmed line of the shape `[name]`.
pub open spec fn spec_is_header(t: Seq<char>) -> bool {
    t.len() >= 2 && t[0] == '[' && t[t.len() - 1] == ']'
}

/// The name between the brackets of a header line.
pub open spec fn spec_header_name(t: Seq<char>) -> Seq<char> {
    t.subrange(1, t.len() - 1)
}

/// A trimmed line the parser ignores: blank, or a `#` comment.
pub open spec fn spec_is_skippable(t: Seq<char>) -> bool {
    t.len() == 0 || t[0] == '#'
}

/// The span of a whole line: column 1 through the line's length in
/// characters.
pub open spec fn spec_line_range(row: int, len: int) -> GRange {
    GRange { start: GPos { row, col: 1 }, end: GPos { row, col: len } }
}

/// One step of the machine: what one line, at a 1-based row, does to the
/// state under a given policy.
pub open spec fn spec_step(p: IniParser, st: SpecState, row: int, line: Seq<char>) -> Result<
    SpecState,
    SpecErr,
> {
    let te = spec_trim_end(line);
    let t = spec_trim_start(te);
    match st.cur {
        None => {
            if spec_is_header(t) {
                Ok(SpecState { doc: st.doc, cur: Some((spec_header_name(t), Map::empty())), multi: None })
            } else if spec_is_skippable(t) {
                Ok(st)
            } else if p.error_if_unknown_line_before_any_section {
                Err(
                    SpecErr {
                        typ: IniParseErrorType::UnknownLineBeforeAnySection,
                        range: spec_line_range(row, line.len() as int),
                    },
                )
            } else {
                Ok(st)
            }
        },
        Some(sec) => match st.multi {
            Some(m) => {
                if spec_ends_marker(t, m.q) {
                    let value = m.val + te.subrange(0, te.len() - 3);
                    Ok(
                        SpecState {
                            doc: st.doc,
                            cur: Some((sec.0, sec.1.insert(m.key, value))),
                            multi: None,
                        },
                    )
                } else {
                    Ok(
                        SpecState {
                            doc: st.doc,
                            cur: st.cur,
                            multi: Some(
                                SpecMulti {
                                    q: m.q,
                                    range: GRange {
                                        start: m.range.start,
                                        end: GPos { row, col: line.len() as int },
                                    },
                                    key: m.key,
                                    val: m.val + line,
                                },
                            ),
                        },
                    )
                }
            },
            None => {
                if spec_is_skippable(t) {
                    Ok(st)
                } else if spec_find(line, ':') < line.len() {
                    let ci = spec_find(line, ':');
                    let rawv = line.subrange(ci + 1, line.len() as int);
                    let tk = spec_trim(line.subrange(0, ci));
                    let tv = spec_trim(rawv);
                    if spec_starts_marker(tv, '"') || spec_starts_marker(tv, '\'') {
                        let q: char = if spec_starts_marker(tv, '"') {
                            '"'
                        } else {
                            '\''
                        };
                        let mcol = ci + 1 + (rawv.len() - spec_trim_start(rawv).len()) + 1;
                        Ok(
                            SpecState {
                                doc: st.doc,
                                cur: st.cur,
                                multi: Some(
                                    SpecMulti {
                                        q,
                                        range: GRange {
                                            start: GPos { row, col: mcol },
                                            end: GPos { row, col: line.len() as int },
                                        },
                                        key: tk,
                                        val: tv.subrange(3, tv.len() as int),
                                    },
                                ),
                            },
                        )
                    } else if sec.1.contains_key(tk) && p.error_if_repeated_key {
                        Err(
                            SpecErr {
                                typ: IniParseErrorType::RepeatedKey,
                                range: spec_line_range(row, line.len() as int),
                            },
                        )
                    } else {
                        Ok(
                            SpecState {
                                doc: st.doc,
                                cur: Some((sec.0, sec.1.insert(tk, tv))),
                                multi: None,
                            },
                        )
                    }
                } else if spec_is_header(t) {
                    Ok(
                        SpecState {
                            doc: st.doc.insert(sec.0, sec.1),
                            cur: Some((spec_header_name(t), Map::empty())),
                            multi: None,
                        },
                    )
                } else if p.error_if_unknown_line_in_section {
                    Err(
                        SpecErr {
                            typ: IniParseErrorType::UnknownLineInSection,
                            range: spec_line_range(row, line.len() as int),
                        },
                    )
                } else {
                    Ok(st)
                }
            },
        },
    }
}

/// Runs the machine over the remaining lines, the first numbered `row`.
pub open spec fn spec_run(p: IniParser, lines: Seq<Seq<char>>, row: int, st: SpecState) -> Result<
    SpecState,
    SpecErr,
>
    decreases lines.len(),
{
    if lines.len() == 0 {
        Ok(st)
    } else {
        match spec_step(p, st, row, lines[0]) {
            Ok(st2) => spec_run(p, lines.subrange(1, lines.len() as int), row + 1, st2),
            Err(e) => Err(e),
        }
    }
}

/// What the end of input does: an open multi-line value is fatal or
/// discarded, and the section under construction is completed.
pub open spec fn spec_finish(p: IniParser, st: SpecState) -> Result<
    Map<Seq<char>, Map<Seq<char>, Seq<char>>>,
    SpecErr,
> {
    if st.multi is Some && p.error_if_endless_multiline {
        Err(SpecErr { typ: IniParseErrorType::EndlessMultiline, range: st.multi->Some_0.range })
    } else {
        match st.cur {
            Some(sec) => Ok(st.doc.insert(sec.0, sec.1)),
            None => Ok(st.doc),
        }
    }
}

/// The whole parse: split into lines, run the machine, finish.
pub open spec fn spec_parse(p: IniParser, src: Seq<char>) -> Result<
    Map<Seq<char>, Map<Seq<char>, Seq<char>>>,
    SpecErr,
> {
    match spec_run(p, spec_split_lines(src), 1, spec_init_state()) {
        Ok(st) => spec_finish(p, st),
        Err(e) => Err(e),
    }
}

/// The source split at every newline; one line more than there are
/// newlines, so an empty source is one empty line.
pub open spec fn spec_split_lines(s: Seq<char>) -> Seq<Seq<char>>
    decreases s.len(),
{
    let i = spec_find(s, '\n');
    if 0 <= i < s.len() {
        seq![s.subrange(0, i)] + spec_split_lines(s.subrange(i + 1, s.len() as int))
    } else {
        seq![s]
    }
}

/// Splits the source into lines on `\n`.
pub fn split_lines<'a>(s: &'a str) -> (r: Vec<&'a str>)
    ensures
        r@.len() == spec_split_lines(s@).len(),
        forall|i: int| 0 <= i < r@.len() ==> r@[i]@ == spec_split_lines(s@)[i],
{
    let n = s.unicode_len();
    let mut r: Vec<&str> = Vec::new();
    let mut pos: usize = 0;
    proof {
        assert(s@.subrange(0, n as int) =~= s@);
        assert(Seq::new(r@.len(), |i: int| r@[i]@) =~= Seq::<Seq<char>>::empty());
    }
    loop
        invariant
            pos <= n,
            n == s@.len(),
            spec_split_lines(s@) == Seq::new(r@.len(), |i: int| r@[i]@) + spec_split_lines(
                s@.subrange(pos as int, n as int),
            ),
        decreases n - pos,
    {
        let ghost sub = s@.subrange(pos as int, n as int);
        let ghost built = Seq::new(r@.len(), |i: int| r@[i]@);
        match str_find_from(s, pos, '\n') {
            Some(j) => {
                let line = s.substring_char(pos, j);
                r.push(line);
                proof {
                    assert(sub.subrange(0, j - pos) =~= s@.subrange(pos as int, j as int));
                    assert(sub.subrange(j - pos + 1, sub.len() as int) =~= s@.subrange(
                        j + 1,
                        n as int,
                    ));
                    assert(spec_split_lines(sub) == seq![line@] + spec_split_lines(
                        s@.subrange(j + 1, n as int),
                    ));
                    assert(Seq::new(r@.len(), |i: int| r@[i]@) =~= built.push(line@));
                    assert(built.push(line@) + spec_split_lines(s@.subrange(j + 1, n as int))
                        =~= built + (seq![line@] + spec_split_lines(s@.subrange(j + 1, n as int))));
                }
                pos = j + 1;
            },
            None => {
                let line = s.substring_char(pos, n);
                r.push(line);
                proof {
                    assert(spec_find(sub, '\n') == sub.len());
                    crate::text::lemma_find_props(sub, '\n');
                    assert(spec_split_lines(sub) == seq![sub]);
                    assert(line@ =~= sub);
                    assert(Seq::new(r@.len(), |i: int| r@[i]@) =~= built.push(line@));
                    assert(built + seq![line@] =~= built.push(line@));
                    assert(spec_split_lines(s@) =~= Seq::new(r@.len(), |i: int| r@[i]@));
                }
                return r;
            },
        }
    }
}

} // verus!

verus! {

/// An in-progress multi-line value: the quote character that must close
/// it, the span it covers so far, and the property being accumulated.
struct PendingMultiline {
    terminator: char,
    range: Range,
    property: IniProperty,
}

/// The specification-level counterpart of a pending multi-line value.
spec fn abs_multi(m: PendingMultiline) -> SpecMulti {
    SpecMulti { q: m.terminator, range: m.range@, key: m.property@.0, val: m.property@.1 }
}

/// The specification-level counterpart of the parser's transient state.
spec fn abs_state(doc: Ini, cur: Option<IniSection>, multi: Option<PendingMultiline>) -> SpecState {
    SpecState {
        doc: doc.spec_map(),
        cur: match cur {
            Some(sec) => Some((sec@.0, sec.spec_props())),
            None => None,
        },
        multi: match multi {
            Some(m) => Some(abs_multi(m)),
            None => None,
        },
    }
}

/// Running from line `i` takes one step on line `i` and runs on.
proof fn lemma_run_step(p: IniParser, lines: Seq<Seq<char>>, i: int, st: SpecState)
    requires
        0 <= i < lines.len(),
    ensures
        spec_run(p, lines.subrange(i, lines.len() as int), i + 1, st) == (match spec_step(
            p,
            st,
            i + 1,
            lines[i],
        ) {
            Ok(st2) => spec_run(p, lines.subrange(i + 1, lines.len() as int), i + 2, st2),
            Err(e) => Err(e),
        }),
{
    let sub = lines.subrange(i, lines.len() as int);
    assert(sub[0] == lines[i]);
    assert(sub.subrange(1, sub.len() as int) =~= lines.subrange(i + 1, lines.len() as int));
}

impl IniParser {
    /// Parses the whole source text. The result is exactly what the
    /// specification machine `spec_parse` yields for this policy: either
    /// the complete document, or the first fatal anomaly in line order,
    /// classified and spanning the offending source range.
    pub fn parse(&self, src: &str) -> (r: Result<Ini, IniParseError>)
        ensures
            match r {
                Ok(ini) => ini.wf() && (spec_parse(*self, src@) matches Ok(m) && ini.spec_map()
                    == m),
                Err(e) => (spec_parse(*self, src@) matches Err(se) && e.typ == se.typ && e.range@
                    == se.range && e.msg@ == Seq::<char>::empty()),
            },
    {
        let ghost p = *self;
        let lines = split_lines(src);
        let ghost lv: Seq<Seq<char>> = Seq::new(lines@.len(), |i: int| lines@[i]@);
        proof {
            assert(lv =~= spec_split_lines(src@));
        }
        let mut ini = Ini::new();
        let mut cur: Option<IniSection> = None;
        let mut multi: Option<PendingMultiline> = None;
        let n = lines.len();
        let mut i: usize = 0;
        proof {
            assert(lv.subrange(0, n as int) =~= lv);
            assert(abs_state(ini, cur, multi) =~= spec_init_state()) by {
                assert(ini.entries() =~= Seq::<(Seq<char>, Map<Seq<char>, Seq<char>>)>::empty());
            }
        }
        while i < n
            invariant
                i <= n,
                n == lv.len(),
                n == lines@.len(),
                p == *self,
                forall|j: int| 0 <= j < n ==> lines@[j]@ == lv[j],
                lv == spec_split_lines(src@),
                ini.wf(),
                (match cur {
                    Some(sec) => sec.wf(),
                    None => true,
                }),
                (match multi {
                    Some(m) => cur is Some,
                    None => true,
                }),
                spec_run(p, lv, 1, spec_init_state()) == spec_run(
                    p,
                    lv.subrange(i as int, n as int),
                    i + 1,
                    abs_state(ini, cur, multi),
                ),
            decreases n - i,
        {
            let ghost st0 = abs_state(ini, cur, multi);
            let line = lines[i];
            let row = i + 1;
            let llen = line.unicode_len();
            let te = str_trim_end(line);
            let t = str_trim_start(te);
            let tn = t.unicode_len();
            let c = cur;
            cur = None;
            let m = multi;
            multi = None;
            match c {
                None => {
                    if tn >= 2 && t.get_char(0) == '[' && t.get_char(tn - 1) == ']' {
                        let name = t.substring_char(1, tn - 1);
                        cur = Some(IniSection::new(String::from_str(name)));
                        proof {
                            assert(spec_is_header(t@));
                            assert(name@ == spec_header_name(t@));
                            assert(spec_step(p, st0, row as int, line@) == Ok::<
                                SpecState,
                                SpecErr,
                            >(abs_state(ini, cur, multi)));
                        }
                    } else if tn == 0 || t.get_char(0) == '#' {
                        proof {
                            assert(spec_is_skippable(t@));
                            assert(abs_state(ini, cur, multi) =~= st0);
                            assert(spec_step(p, st0, row as int, line@) == Ok::<
                                SpecState,
                                SpecErr,
                            >(abs_state(ini, cur, multi)));
                        }
                    } else if self.error_if_unknown_line_before_any_section {
                        proof {
                            assert(!spec_is_header(t@));
                            assert(!spec_is_skippable(t@));
                            lemma_run_step(p, lv, i as int, st0);
                        }
                        return Err(
                            IniParseError {
                                typ: IniParseErrorType::UnknownLineBeforeAnySection,
                                range: Range {
                                    start: Position::new(row, 1),
                                    end: Position::new(row, llen),
                                },
                                msg: String::new(),
                            },
                        );
                    } else {
                        proof {
                            assert(!spec_is_header(t@));
                            assert(!spec_is_skippable(t@));
                            assert(abs_state(ini, cur, multi) =~= st0);
                            assert(spec_step(p, st0, row as int, line@) == Ok::<
                                SpecState,
                                SpecErr,
                            >(abs_state(ini, cur, multi)));
                        }
                    }
                },
                Some(mut sec) => {
                    match m {
                        Some(mut pend) => {
                            pend.range.end = Position::new(row, llen);
                            if ends_with_marker(t, pend.terminator) {
                                proof {
                                    lemma_trim_start_is_suffix(te@);
                                    assert(te@.len() >= t@.len() >= 3);
                                    assert(te@.subrange(
                                        te@.len() - t@.len(),
                                        te@.len() as int,
                                    ) == t@);
                                }
                                let te_len = te.unicode_len();
                                let rem = te.substring_char(0, te_len - 3);
                                let k = String::from_str(pend.property.key());
                                let mut v = String::from_str(pend.property.value());
                                v.append(rem);
                                let _replaced = sec.insert_property(IniProperty::new(k, v));
                                cur = Some(sec);
                                proof {
                                    assert(spec_step(p, st0, row as int, line@) == Ok::<
                                        SpecState,
                                        SpecErr,
                                    >(abs_state(ini, cur, multi)));
                                }
                            } else {
                                let mut v = String::from_str(pend.property.value());
                                v.append(line);
                                let _old = pend.property.set_value(v);
                                cur = Some(sec);
                                multi = Some(pend);
                                proof {
                                    assert(spec_step(p, st0, row as int, line@) == Ok::<
                                        SpecState,
                                        SpecErr,
                                    >(abs_state(ini, cur, multi)));
                                }
                            }
                        },
                        None => {
                            if tn == 0 || t.get_char(0) == '#' {
                                cur = Some(sec);
                                proof {
                                    assert(spec_is_skippable(t@));
                                    assert(abs_state(ini, cur, multi) =~= st0);
                                    assert(spec_step(p, st0, row as int, line@) == Ok::<
                                        SpecState,
                                        SpecErr,
                                    >(abs_state(ini, cur, multi)));
                                }
                            } else {
                                match str_find_from(line, 0, ':') {
                                    Some(ci) => {
                                        proof {
                                            assert(line@.subrange(0, llen as int) =~= line@);
                                        }
                                        let rawk = line.substring_char(0, ci);
                                        let rawv = line.substring_char(ci + 1, llen);
                                        let tk = str_trim(rawk);
                                        let tv = str_trim(rawv);
                                        let dq = starts_with_marker(tv, '"');
                                        let sq = starts_with_marker(tv, '\'');
                                        if dq || sq {
                                            let q: char = if dq {
                                                '"'
                                            } else {
                                                '\''
                                            };
                                            let tsv = str_trim_start(rawv);
                                            proof {
                                                lemma_trim_start_is_suffix(rawv@);
                                                lemma_trim_end_is_prefix(rawv@);
                                                lemma_trim_start_is_suffix(
                                                    spec_trim_end(rawv@),
                                                );
                                                if tsv@.len() == 0 {
                                                    assert(spec_trim(rawv@).len() >= 3);
                                                    assert(spec_trim(rawv@)[0] == spec_trim_end(
                                                        rawv@,
                                                    )[spec_trim_end(rawv@).len() - spec_trim(
                                                        rawv@,
                                                    ).len()]);
                                                    assert(false);
                                                }
                                            }
                                            let lead = rawv.unicode_len() - tsv.unicode_len();
                                            let mcol = ci + 1 + lead + 1;
                                            let tvn = tv.unicode_len();
                                            let rest = tv.substring_char(3, tvn);
                                            cur = Some(sec);
                                            multi = Some(
                                                PendingMultiline {
                                                    terminator: q,
                                                    range: Range {
                                                        start: Position::new(row, mcol),
                                                        end: Position::new(row, llen),
                                                    },
                                                    property: IniProperty::new(
                                                        String::from_str(tk),
                                                        String::from_str(rest),
                                                    ),
                                                },
                                            );
                                            proof {
                                                assert(spec_step(p, st0, row as int, line@) == Ok::<
                                                    SpecState,
                                                    SpecErr,
                                                >(abs_state(ini, cur, multi)));
                                            }
                                        } else {
                                            let replaced = sec.insert_property(
                                                IniProperty::new(
                                                    String::from_str(tk),
                                                    String::from_str(tv),
                                                ),
                                            );
                                            if replaced.is_some() && self.error_if_repeated_key {
                                                proof {
                                                    lemma_run_step(p, lv, i as int, st0);
                                                }
                                                return Err(
                                                    IniParseError {
                                                        typ: IniParseErrorType::RepeatedKey,
                                                        range: Range {
                                                            start: Position::new(row, 1),
                                                            end: Position::new(row, llen),
                                                        },
                                                        msg: String::new(),
                                                    },
                                                );
                                            }
                                            cur = Some(sec);
                                            proof {
                                                assert(spec_step(p, st0, row as int, line@) == Ok::<
                                                    SpecState,
                                                    SpecErr,
                                                >(abs_state(ini, cur, multi)));
                                            }
                                        }
                                    },
                                    None => {
                                        proof {
                                            assert(line@.subrange(0, llen as int) =~= line@);
                                            crate::text::lemma_find_props(line@, ':');
                                        }
                                        if tn >= 2 && t.get_char(0) == '[' && t.get_char(tn - 1)
                                            == ']' {
                                            let name = t.substring_char(1, tn - 1);
                                            let _old = ini.insert_section(sec);
                                            cur = Some(IniSection::new(String::from_str(name)));
                                            proof {
                                                assert(spec_is_header(t@));
                                                assert(name@ == spec_header_name(t@));
                                                assert(spec_step(p, st0, row as int, line@) == Ok::<
                                                    SpecState,
                                                    SpecErr,
                                                >(abs_state(ini, cur, multi)));
                                            }
                                        } else if self.error_if_unknown_line_in_section {
                                            proof {
                                                lemma_run_step(p, lv, i as int, st0);
                                            }
                                            return Err(
                                                IniParseError {
                                                    typ: IniParseErrorType::UnknownLineInSection,
                                                    range: Range {
                                                        start: Position::new(row, 1),
                                                        end: Position::new(row, llen),
                                                    },
                                                    msg: String::new(),
                                                },
                                            );
                                        } else {
                                            cur = Some(sec);
                                            proof {
                                                assert(abs_state(ini, cur, multi) =~= st0);
                                                assert(spec_step(p, st0, row as int, line@) == Ok::<
                                                    SpecState,
                                                    SpecErr,
                                                >(abs_state(ini, cur, multi)));
                                            }
                                        }
                                    },
                                }
                            }
                        },
                    }
                },
            }
            proof {
                lemma_run_step(p, lv, i as int, st0);
            }
            i = i + 1;
        }
        proof {
            assert(lv.subrange(n as int, n as int) =~= Seq::<Seq<char>>::empty());
        }
        if self.error_if_endless_multiline && multi.is_some() {
            let pend = match multi {
                Some(pend) => pend,
                None => unreached(),
            };
            return Err(
                IniParseError {
                    typ: IniParseErrorType::EndlessMultiline,
                    range: pend.range,
                    msg: String::new(),
                },
            );
        }
        if let Some(sec) = cur {
            let _old = ini.insert_section(sec);
        }
        Ok(ini)
    }
}

} // verus!
