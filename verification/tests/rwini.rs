use rwini::parser::IniParseErrorType;
use rwini::rwini::{
    RwiniParseErrorType, RwiniParser, RwiniTypeClass, RwiniTypeClassParseError, RwiniTypePrice,
    RwiniTypePriceParseError,
};

#[test]
fn price_parses_plain_credits() {
    assert!(matches!(RwiniTypePrice::parse("123"), Ok(RwiniTypePrice::Credit(123))));
    assert!(matches!(RwiniTypePrice::parse("-7"), Ok(RwiniTypePrice::Credit(-7))));
    assert!(matches!(
        RwiniTypePrice::parse("2147483647"),
        Ok(RwiniTypePrice::Credit(2147483647))
    ));
    assert!(matches!(
        RwiniTypePrice::parse("-2147483648"),
        Ok(RwiniTypePrice::Credit(-2147483648))
    ));
}

#[test]
fn price_parses_custom_resource() {
    match RwiniTypePrice::parse("gold= 5") {
        Ok(RwiniTypePrice::Custom(name, amount)) => {
            assert_eq!(name, "gold");
            assert_eq!(amount, 5);
        }
        other => panic!("expected a custom price, got {:?}", other),
    }
}

#[test]
fn price_rejects_bad_values() {
    assert!(matches!(
        RwiniTypePrice::parse("gold=x"),
        Err(RwiniTypePriceParseError::CutomValueInvalid)
    ));
    assert!(matches!(
        RwiniTypePrice::parse("abc"),
        Err(RwiniTypePriceParseError::CreditValueInvalid)
    ));
    assert!(matches!(
        RwiniTypePrice::parse("2147483648"),
        Err(RwiniTypePriceParseError::CreditValueInvalid)
    ));
    assert!(matches!(
        RwiniTypePrice::parse(""),
        Err(RwiniTypePriceParseError::CreditValueInvalid)
    ));
}

#[test]
fn class_parse() {
    assert_eq!(
        RwiniTypeClass::parse("CustomUnitMetaData"),
        Ok(RwiniTypeClass::CustomUnitMetaData)
    );
    assert_eq!(
        RwiniTypeClass::parse("SomethingElse"),
        Err(RwiniTypeClassParseError::UnknownClass)
    );
}

#[test]
fn rwini_parse_success_fills_extras() {
    let parser = RwiniParser {};
    let rw = parser.parse("[core]\nname: abc").unwrap();
    assert!(rw.core.name.is_none());
    assert!(rw.core.price.is_none());
    assert_eq!(rw.extras.section_count(), 1);
    assert_eq!(rw.extras.section_at(0).name(), "core");
    assert_eq!(rw.extras.section_at(0).value("name"), Some(&"abc".to_string()));
}

#[test]
fn rwini_parse_wraps_the_syntax_error() {
    let parser = RwiniParser {};
    let err = parser.parse("garbage").unwrap_err();
    assert_eq!(err.range.start.row, 1);
    assert_eq!(err.range.end.col, 7);
    assert_eq!(err.msg, "");
    match &err.typ {
        RwiniParseErrorType::SyntaxError(inner) => {
            assert_eq!(inner.typ, IniParseErrorType::UnknownLineBeforeAnySection);
            assert_eq!(inner.range, err.range);
        }
        RwiniParseErrorType::Unknown => panic!("expected a wrapped syntax error"),
    }
    assert_eq!(
        err.to_display_string(),
        "type:SyntaxError, range:((1, 1), (1, 7)), msg:"
    );
}
