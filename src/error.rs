use vstd::prelude::*;

verus! {

/// Why a document could not be compiled. Each variant but `Syntax` names the
/// declaration path at which the fault was found.
#[derive(Debug)]
pub enum ParseError {
    /// The text is no well-formed YAML.
    Syntax { error: serde_yaml::Error },
    /// A mandatory field is absent.
    MissingField { field_name: String, missing_in: String },
    /// A field is present with a value of the wrong shape or range.
    InvalidType { wrong_type: String, missing_in: String, expected: String },
    /// A referenced rule, type, material or cell name is not declared.
    NotFound { missing: String, missing_in: String },
    /// An instruction matches no known form.
    NotRecognized { unrecog: String, missing_in: String },
}

/// The content of a `ParseError`, as contracts speak of it.
pub enum Fault {
    Syntax,
    MissingField { field: Seq<char>, path: Seq<char> },
    InvalidType { what: Seq<char>, path: Seq<char>, expected: Seq<char> },
    NotFound { missing: Seq<char>, path: Seq<char> },
    NotRecognized { text: Seq<char>, path: Seq<char> },
}

impl View for ParseError {
    type V = Fault;

    open spec fn view(&self) -> Fault {
        match self {
            ParseError::Syntax { .. } => Fault::Syntax,
            ParseError::MissingField { field_name, missing_in } => Fault::MissingField {
                field: field_name@,
                path: missing_in@,
            },
            ParseError::InvalidType { wrong_type, missing_in, expected } => Fault::InvalidType {
                what: wrong_type@,
                path: missing_in@,
                expected: expected@,
            },
            ParseError::NotFound { missing, missing_in } => Fault::NotFound {
                missing: missing@,
                path: missing_in@,
            },
            ParseError::NotRecognized { unrecog, missing_in } => Fault::NotRecognized {
                text: unrecog@,
                path: missing_in@,
            },
        }
    }
}

pub open spec fn hint_string() -> Seq<char> {
    "string"@
}

pub open spec fn hint_bool() -> Seq<char> {
    "bool (true/false)"@
}

pub open spec fn hint_float() -> Seq<char> {
    "float (0.0 to 1.0)"@
}

pub open spec fn hint_sequence() -> Seq<char> {
    "sequence (array, '[...]')"@
}

pub open spec fn hint_instructions() -> Seq<char> {
    "string or sequence of strings"@
}

pub open spec fn hint_color() -> Seq<char> {
    "sequence (array, '[...]') of 3-4 floats (range 0.0-1.0) OR integers (range 0-255). (With 3 elements, the alpha channel defaults to 1.0)"@
}

pub open spec fn hint_mapping() -> Seq<char> {
    "mapping (dictionary-like)"@
}

pub fn missing_field(field: &str, path: &str) -> (e: ParseError)
    ensures
        e@ == (Fault::MissingField { field: field@, path: path@ }),
{
    ParseError::MissingField {
        field_name: String::from_str(field),
        missing_in: String::from_str(path),
    }
}

pub fn invalid_type(what: &str, path: &str, expected: &str) -> (e: ParseError)
    ensures
        e@ == (Fault::InvalidType { what: what@, path: path@, expected: expected@ }),
{
    ParseError::InvalidType {
        wrong_type: String::from_str(what),
        missing_in: String::from_str(path),
        expected: String::from_str(expected),
    }
}

pub fn not_found(missing: &str, path: &str) -> (e: ParseError)
    ensures
        e@ == (Fault::NotFound { missing: missing@, path: path@ }),
{
    ParseError::NotFound { missing: String::from_str(missing), missing_in: String::from_str(path) }
}

pub fn not_recognized(text: &str, path: &str) -> (e: ParseError)
    ensures
        e@ == (Fault::NotRecognized { text: text@, path: path@ }),
{
    ParseError::NotRecognized {
        unrecog: String::from_str(text),
        missing_in: String::from_str(path),
    }
}

/// The message that describes a fault.
pub open spec fn description(f: Fault) -> Seq<char> {
    match f {
        Fault::Syntax => "(Syntax) The text is not a well-formed YAML document"@,
        Fault::MissingField { field, path } => "(MissingField) Mandatory field '"@ + field
            + "' is missing in '"@ + path + "'"@,
        Fault::InvalidType { what, path, expected } => "(InvalidType) The type of the field '"@ + what
            + "' inside of '"@ + path + "' is invalid. Expected: '"@ + expected + "'"@,
        Fault::NotFound { missing, path } => "(NotFound) The name '"@ + missing + "' (in '"@ + path
            + "') was not found. Make sure it was defined before referencing it."@,
        Fault::NotRecognized { text, path } => "(NotRecognized) The expression '"@ + text + "' (in '"@
            + path + "') was not recognized as valid syntax. Please check it is valid."@,
    }
}

impl ParseError {
    /// A message that describes the error, starting with its kind in parentheses.
    pub fn describe(&self) -> (r: String)
        ensures
            r@ == description(self@),
    {
        match self {
            ParseError::Syntax { .. } => String::from_str("(Syntax) The text is not a well-formed YAML document"),
            ParseError::MissingField { field_name, missing_in } => {
                let mut s = String::from_str("(MissingField) Mandatory field '");
                s.append(field_name.as_str());
                s.append("' is missing in '");
                s.append(missing_in.as_str());
                s.append("'");
                s
            },
            ParseError::InvalidType { wrong_type, missing_in, expected } => {
                let mut s = String::from_str("(InvalidType) The type of the field '");
                s.append(wrong_type.as_str());
                s.append("' inside of '");
                s.append(missing_in.as_str());
                s.append("' is invalid. Expected: '");
                s.append(expected.as_str());
                s.append("'");
                s
            },
            ParseError::NotFound { missing, missing_in } => {
                let mut s = String::from_str("(NotFound) The name '");
                s.append(missing.as_str());
                s.append("' (in '");
                s.append(missing_in.as_str());
                s.append("') was not found. Make sure it was defined before referencing it.");
                s
            },
            ParseError::NotRecognized { unrecog, missing_in } => {
                let mut s = String::from_str("(NotRecognized) The expression '");
                s.append(unrecog.as_str());
                s.append("' (in '");
                s.append(missing_in.as_str());
                s.append("') was not recognized as valid syntax. Please check it is valid.");
                s
            },
        }
    }
}

} // verus!
