use rwini::document::{Ini, IniProperty, IniSection};
use rwini::parser::{IniParseErrorType, IniParser};

fn section(name: &str, props: &[(&str, &str)]) -> IniSection {
    let mut sec = IniSection::new(name.to_string());
    for (k, v) in props {
        sec.insert_property(IniProperty::new(k.to_string(), v.to_string()));
    }
    sec
}

fn document(sections: &[(&str, &[(&str, &str)])]) -> Ini {
    let mut ini = Ini::new();
    for (name, props) in sections {
        ini.insert_section(section(name, props));
    }
    ini
}

#[test]
fn test_parse() {
    let parser = IniParser::default();
    assert_eq!(parser.parse("[core]"), Ok(document(&[("core", &[])])));
    assert_eq!(
        parser.parse("[core]\nname: abc\nprice: '''1\n2\n'''"),
        Ok(document(&[("core", &[("name", "abc"), ("price", "12")])]))
    );
    assert_eq!(
        parser.parse("[core]\nname: abc\nprice: '''1\n2\n'''\n[abc]\ndef:abc"),
        Ok(document(&[
            ("core", &[("name", "abc"), ("price", "12")]),
            ("abc", &[("def", "abc")]),
        ]))
    );
}

#[test]
fn multiline_concatenation() {
    let parser = IniParser::default();
    let ini = parser.parse("[core]\nname: abc\nprice: '''1\n2\n'''").unwrap();
    assert_eq!(ini.section_count(), 1);
    let sec = ini.section_at(0);
    assert_eq!(sec.name(), "core");
    assert_eq!(sec.property_count(), 2);
    assert_eq!(sec.value("name"), Some(&"abc".to_string()));
    assert_eq!(sec.value("price"), Some(&"12".to_string()));
}

#[test]
fn multiple_sections() {
    let parser = IniParser::default();
    let ini = parser
        .parse("[core]\nname: abc\nprice: '''1\n2\n'''\n[abc]\ndef:abc")
        .unwrap();
    assert_eq!(ini.section_count(), 2);
    // sections are kept sorted by name
    assert_eq!(ini.section_at(0).name(), "abc");
    assert_eq!(ini.section_at(0).value("def"), Some(&"abc".to_string()));
    assert_eq!(ini.section_at(1).name(), "core");
    assert_eq!(ini.section_at(1).value("name"), Some(&"abc".to_string()));
    assert_eq!(ini.section_at(1).value("price"), Some(&"12".to_string()));
}

#[test]
fn empty_section() {
    let parser = IniParser::default();
    let ini = parser.parse("[core]").unwrap();
    assert_eq!(ini.section_count(), 1);
    assert_eq!(ini.section_at(0).name(), "core");
    assert_eq!(ini.section_at(0).property_count(), 0);
}

#[test]
fn empty_input_yields_empty_document() {
    let parser = IniParser::default();
    let ini = parser.parse("").unwrap();
    assert_eq!(ini.section_count(), 0);
}

#[test]
fn unknown_line_before_any_section() {
    let parser = IniParser::default();
    let err = parser.parse("garbage\n[core]").unwrap_err();
    assert_eq!(err.typ, IniParseErrorType::UnknownLineBeforeAnySection);
    assert_eq!(err.range.start.row, 1);
    assert_eq!(err.range.start.col, 1);
    assert_eq!(err.range.end.row, 1);
    assert_eq!(err.range.end.col, 7);
    assert_eq!(err.msg, "");

    let mut tolerant = IniParser::default();
    tolerant.error_if_unknown_line_before_any_section = false;
    assert_eq!(tolerant.parse("garbage\n[core]"), Ok(document(&[("core", &[])])));
}

#[test]
fn unknown_line_in_section() {
    let parser = IniParser::default();
    let err = parser.parse("[core]\ngarbage").unwrap_err();
    assert_eq!(err.typ, IniParseErrorType::UnknownLineInSection);
    assert_eq!(err.range.start.row, 2);

    let mut tolerant = IniParser::default();
    tolerant.error_if_unknown_line_in_section = false;
    assert_eq!(tolerant.parse("[core]\ngarbage"), Ok(document(&[("core", &[])])));
}

#[test]
fn repeated_key() {
    let mut strict = IniParser::default();
    strict.error_if_repeated_key = true;
    let err = strict.parse("[core]\na:1\na:2").unwrap_err();
    assert_eq!(err.typ, IniParseErrorType::RepeatedKey);
    assert_eq!(err.range.start.row, 3);

    let parser = IniParser::default();
    assert_eq!(
        parser.parse("[core]\na:1\na:2"),
        Ok(document(&[("core", &[("a", "2")])]))
    );
}

#[test]
fn endless_multiline() {
    let parser = IniParser::default();
    let err = parser.parse("[core]\na:'''x").unwrap_err();
    assert_eq!(err.typ, IniParseErrorType::EndlessMultiline);
    // the span starts at the marker, 1-based in characters, and ends at
    // the last line seen while the value was open
    assert_eq!(err.range.start.row, 2);
    assert_eq!(err.range.start.col, 3);
    assert_eq!(err.range.end.row, 2);
    assert_eq!(err.range.end.col, 6);

    let mut tolerant = IniParser::default();
    tolerant.error_if_endless_multiline = false;
    let ini = tolerant.parse("[core]\na:'''x").unwrap();
    assert_eq!(ini.section_count(), 1);
    assert_eq!(ini.section_at(0).property_count(), 0);
}

#[test]
fn double_quoted_multiline() {
    let parser = IniParser::default();
    assert_eq!(
        parser.parse("[core]\na: \"\"\"x\ny\"\"\""),
        Ok(document(&[("core", &[("a", "xy")])]))
    );
}

#[test]
fn comments_and_blank_lines_are_skipped() {
    let parser = IniParser::default();
    assert_eq!(
        parser.parse("# before\n\n[core]\n  # inside\n\nk: v"),
        Ok(document(&[("core", &[("k", "v")])]))
    );
}

#[test]
fn value_may_contain_colon() {
    let parser = IniParser::default();
    assert_eq!(
        parser.parse("[core]\nurl: a:b:c"),
        Ok(document(&[("core", &[("url", "a:b:c")])]))
    );
}

#[test]
fn header_while_multiline_open_is_content() {
    let parser = IniParser::default();
    assert_eq!(
        parser.parse("[core]\na: '''x\n[abc]\n'''"),
        Ok(document(&[("core", &[("a", "x[abc]")])]))
    );
}

#[test]
fn last_section_wins_on_same_name() {
    let parser = IniParser::default();
    assert_eq!(
        parser.parse("[core]\na:1\n[core]\nb:2"),
        Ok(document(&[("core", &[("b", "2")])]))
    );
}

#[test]
fn columns_count_characters_not_bytes() {
    let parser = IniParser::default();
    // the multi-byte line and the ASCII line have the same character count
    let err_wide = parser.parse("日本語あ\n[core]").unwrap_err();
    let err_ascii = parser.parse("abcd\n[core]").unwrap_err();
    assert_eq!(err_wide.typ, IniParseErrorType::UnknownLineBeforeAnySection);
    assert_eq!(err_wide.range, err_ascii.range);
    assert_eq!(err_wide.range.end.col, 4);
}

#[test]
fn parse_twice_yields_equal_documents() {
    let parser = IniParser::default();
    let src = "[core]\nname: abc\nprice: '''1\n2\n'''\n[abc]\ndef:abc";
    assert_eq!(parser.parse(src), parser.parse(src));
}

#[test]
fn round_trip_simple_document() {
    let parser = IniParser::default();
    let first = parser.parse("[b]\nk: v\n[a]\nx:1\ny:2").unwrap();
    let rendered = first.to_ini_string();
    let second = parser.parse(rendered.as_str()).unwrap();
    assert_eq!(first, second);
}

#[test]
fn error_display_string() {
    let parser = IniParser::default();
    let err = parser.parse("garbage\n[core]").unwrap_err();
    assert_eq!(
        err.to_display_string(),
        "type:UnknownLineBeforeAnySection, range:((1, 1), (1, 7)), msg:"
    );
}

#[test]
fn error_type_display_strings() {
    assert_eq!(IniParseErrorType::Unknown.to_display_string(), "Unknown");
    assert_eq!(
        IniParseErrorType::UnknownLineBeforeAnySection.to_display_string(),
        "UnknownLineBeforeAnySection"
    );
    assert_eq!(
        IniParseErrorType::UnknownLineInSection.to_display_string(),
        "UnknownLineInSection"
    );
    assert_eq!(IniParseErrorType::RepeatedKey.to_display_string(), "RepeatedKey");
    assert_eq!(IniParseErrorType::EndlessMultiline.to_display_string(), "EndlessMultiline");
}
