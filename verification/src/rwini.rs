//! The typed layer above the raw document: a fixed set of optional typed
//! core fields plus a catch-all document of extras, and the single-line
//! parsers for the typed property values.

use vstd::prelude::*;

use crate::document::Ini;
use vstd::std_specs::cmp::PartialEqSpec;
use crate::parser::{spec_default_parser, spec_parse, IniParseError, IniParser};
use crate::position::Range;
use crate::text::{spec_find, spec_parse_i32, spec_trim_start, str_eq, str_find_from,
    str_trim_start, parse_i32};

verus! {

/// The kinds of identifier a name may live under.
pub enum RwiniIdentifierNamespace {
    UnitName,
    UnitTag,
    MemoryName,
    SectionActionName,
}

/// A price: plain credits, or a named custom resource with an amount.
#[derive(Debug)]
pub enum RwiniTypePrice {
    Credit(i32),
    Custom(String, i32),
}

/// Why a price failed to parse.
#[derive(Debug, PartialEq, Eq, Clone, Copy, Structural)]
pub enum RwiniTypePriceParseError {
    CutomValueInvalid,
    CreditValueInvalid,
}

impl RwiniTypePrice {
    /// Parses a price: either a plain decimal credit amount, or
    /// `name=amount` for a custom resource, the amount's leading
    /// whitespace tolerated.
    pub fn parse(text: &str) -> (r: Result<RwiniTypePrice, RwiniTypePriceParseError>)
        ensures
            ({
                let e = spec_find(text@, '=');
                if e < text@.len() {
                    match spec_parse_i32(
                        spec_trim_start(text@.subrange(e + 1, text@.len() as int)),
                    ) {
                        Some(v) => r matches Ok(RwiniTypePrice::Custom(k, val)) && k@
                            == text@.subrange(0, e) && val == v,
                        None => r matches Err(RwiniTypePriceParseError::CutomValueInvalid),
                    }
                } else {
                    match spec_parse_i32(text@) {
                        Some(v) => r matches Ok(RwiniTypePrice::Credit(val)) && val == v,
                        None => r matches Err(RwiniTypePriceParseError::CreditValueInvalid),
                    }
                }
            }),
    {
        let n = text.unicode_len();
        proof {
            assert(text@.subrange(0, n as int) =~= text@);
        }
        match str_find_from(text, 0, '=') {
            Some(e) => {
                let k = text.substring_char(0, e);
                let v = str_trim_start(text.substring_char(e + 1, n));
                match parse_i32(v) {
                    Some(val) => Ok(RwiniTypePrice::Custom(String::from_str(k), val)),
                    None => Err(RwiniTypePriceParseError::CutomValueInvalid),
                }
            },
            None => {
                proof {
                    crate::text::lemma_find_props(text@, '=');
                }
                match parse_i32(text) {
                    Some(val) => Ok(RwiniTypePrice::Credit(val)),
                    None => Err(RwiniTypePriceParseError::CreditValueInvalid),
                }
            },
        }
    }
}

/// Why a class failed to parse.
#[derive(Debug, PartialEq, Eq, Clone, Copy, Structural)]
pub enum RwiniTypeClassParseError {
    UnknownClass,
}

/// The classes a section can declare.
#[derive(Debug, PartialEq, Eq, Clone, Copy, Structural)]
pub enum RwiniTypeClass {
    CustomUnitMetaData,
}

impl RwiniTypeClass {
    /// Parses a class name; only `CustomUnitMetaData` is known.
    pub fn parse(text: &str) -> (r: Result<RwiniTypeClass, RwiniTypeClassParseError>)
        ensures
            text@ == "CustomUnitMetaData"@ ==> r == Ok::<RwiniTypeClass, RwiniTypeClassParseError>(
                RwiniTypeClass::CustomUnitMetaData,
            ),
            text@ != "CustomUnitMetaData"@ ==> r == Err::<RwiniTypeClass, RwiniTypeClassParseError>(
                RwiniTypeClassParseError::UnknownClass,
            ),
    {
        if str_eq(text, "CustomUnitMetaData") {
            Ok(RwiniTypeClass::CustomUnitMetaData)
        } else {
            Err(RwiniTypeClassParseError::UnknownClass)
        }
    }
}

/// Why a speed failed to parse. The speed values themselves are floating
/// point and live outside this library.
#[derive(Debug, PartialEq, Eq, Clone, Copy, Structural)]
pub enum RwiniTypeSpeedParseError {
    NormalizedPerTickValueInvalid,
    SecondsValueInvalid,
}

/// The recognized, typed core fields of a document.
#[derive(Debug)]
pub struct RwiniSectionCore {
    pub name: Option<String>,
    pub mass: Option<i32>,
    pub radius: Option<i32>,
    pub price: Option<RwiniTypePrice>,
    pub class: Option<RwiniTypeClass>,
    pub max_hp: Option<i32>,
}

impl Default for RwiniSectionCore {
    /// All core fields absent.
    fn default() -> (r: RwiniSectionCore)
        ensures
            r.name is None,
            r.mass is None,
            r.radius is None,
            r.price is None,
            r.class is None,
            r.max_hp is None,
    {
        RwiniSectionCore {
            name: None,
            mass: None,
            radius: None,
            price: None,
            class: None,
            max_hp: None,
        }
    }
}

/// A typed record: the recognized core fields plus everything else as a
/// plain document.
#[derive(Debug)]
pub struct Rwini {
    pub core: RwiniSectionCore,
    pub extras: Ini,
}

impl Default for Rwini {
    /// An empty record.
    fn default() -> (r: Rwini)
        ensures
            r.core.name is None,
            r.core.mass is None,
            r.core.radius is None,
            r.core.price is None,
            r.core.class is None,
            r.core.max_hp is None,
            r.extras@ == Seq::<(Seq<char>, Seq<(Seq<char>, Seq<char>)>)>::empty(),
            r.extras.wf(),
    {
        Rwini { core: RwiniSectionCore::default(), extras: Ini::new() }
    }
}

/// The classification of a typed-layer parse failure.
#[derive(Debug)]
pub enum RwiniParseErrorType {
    SyntaxError(IniParseError),
    Unknown,
}

impl PartialEq for RwiniParseErrorType {
    fn eq(&self, other: &RwiniParseErrorType) -> (r: bool) {
        match (self, other) {
            (RwiniParseErrorType::Unknown, RwiniParseErrorType::Unknown) => true,
            (RwiniParseErrorType::SyntaxError(a), RwiniParseErrorType::SyntaxError(b)) => a == b,
            _ => false,
        }
    }
}

impl vstd::std_specs::cmp::PartialEqSpecImpl for RwiniParseErrorType {
    open spec fn obeys_eq_spec() -> bool {
        true
    }

    open spec fn eq_spec(&self, other: &RwiniParseErrorType) -> bool {
        match (self, other) {
            (RwiniParseErrorType::Unknown, RwiniParseErrorType::Unknown) => true,
            (RwiniParseErrorType::SyntaxError(a), RwiniParseErrorType::SyntaxError(b)) => a.typ
                == b.typ && a.range == b.range && a.msg@ == b.msg@,
            _ => false,
        }
    }
}

impl RwiniParseErrorType {
    /// The classification's name.
    pub fn to_display_string(&self) -> (r: String)
        ensures
            self is Unknown ==> r@ == "Unknown"@,
            self is SyntaxError ==> r@ == "SyntaxError"@,
    {
        match self {
            RwiniParseErrorType::Unknown => String::from_str("Unknown"),
            RwiniParseErrorType::SyntaxError(_) => String::from_str("SyntaxError"),
        }
    }
}

/// A typed-layer parse failure: the nested classification, the source
/// span, and a message (presently always empty).
#[derive(Debug)]
pub struct RwiniParseError {
    pub typ: RwiniParseErrorType,
    pub range: Range,
    pub msg: String,
}

impl PartialEq for RwiniParseError {
    fn eq(&self, other: &RwiniParseError) -> (r: bool) {
        self.typ == other.typ && self.range == other.range && self.msg == other.msg
    }
}

impl vstd::std_specs::cmp::PartialEqSpecImpl for RwiniParseError {
    open spec fn obeys_eq_spec() -> bool {
        true
    }

    open spec fn eq_spec(&self, other: &RwiniParseError) -> bool {
        vstd::std_specs::cmp::PartialEqSpec::eq_spec(&self.typ, &other.typ) && self.range
            == other.range && self.msg@ == other.msg@
    }
}

impl RwiniParseError {
    /// Renders the failure as `type:T, range:R, msg:M`.
    pub fn to_display_string(&self) -> (r: String)
        ensures
            r@ == "type:"@ + (if self.typ is Unknown {
                "Unknown"@
            } else {
                "SyntaxError"@
            }) + ", range:"@ + crate::position::spec_range_string(self.range@) + ", msg:"@
                + self.msg@,
    {
        let mut s = String::from_str("type:");
        s.append(self.typ.to_display_string().as_str());
        s.append(", range:");
        s.append(self.range.to_display_string().as_str());
        s.append(", msg:");
        s.append(self.msg.as_str());
        s
    }
}

/// The typed parser: runs the line parser under the default policy and
/// re-shapes the result.
pub struct RwiniParser {}

impl RwiniParser {
    /// Parses the source with the default policy; on success the whole
    /// document lands in `extras` and no core field is set, and on
    /// failure the line parser's error is wrapped, keeping its range.
    pub fn parse(&self, src: &str) -> (r: Result<Rwini, RwiniParseError>)
        ensures
            match r {
                Ok(rw) => (spec_parse(spec_default_parser(), src@) matches Ok(m)
                    && rw.extras.spec_map() == m) && rw.extras.wf() && rw.core.name is None
                    && rw.core.mass is None && rw.core.radius is None && rw.core.price is None
                    && rw.core.class is None && rw.core.max_hp is None,
                Err(e) => (spec_parse(spec_default_parser(), src@) matches Err(se) && (
                e.typ matches RwiniParseErrorType::SyntaxError(inner) && inner.typ == se.typ
                    && inner.range@ == se.range && inner.msg@ == Seq::<char>::empty()) && e.range@
                    == se.range && e.msg@ == Seq::<char>::empty()),
            },
    {
        let parser = IniParser::default();
        match parser.parse(src) {
            Err(e) => {
                let range = e.range;
                Err(
                    RwiniParseError {
                        range,
                        typ: RwiniParseErrorType::SyntaxError(e),
                        msg: String::new(),
                    },
                )
            },
            Ok(ini) => Ok(Rwini { extras: ini, core: RwiniSectionCore::default() }),
        }
    }
}

} // verus!
