//! Errors reported by the library.

use vstd::prelude::*;

verus! {

/// Declares the range error of the `time` crate, which the calendar checks
/// hand back.
#[verifier::external_type_specification]
#[verifier::external_body]
pub struct ExComponentRange(time::error::ComponentRange);

/// Declares the error of the `uriparse` crate for a text that is no URI
/// reference.
#[verifier::external_type_specification]
#[verifier::external_body]
pub struct ExURIReferenceError(uriparse::URIReferenceError);

/// Declares the error of the `language-tags` crate for a malformed tag.
#[verifier::external_type_specification]
#[verifier::external_body]
pub struct ExLanguageParseError(language_tags::ParseError);

/// Error lexing a vcard string.
#[derive(Debug, PartialEq, Eq, Clone, Copy, Default)]
pub enum LexError {
    /// Generic lex error.
    #[default]
    Other,
}

/// Errors generated by the vCard library.
#[derive(Debug)]
pub enum Error {
    /// A token was expected but the input ended.
    TokenExpected,
    /// A version is encountered that is not the first property.
    VersionMisplaced,
    /// A control character is encountered.
    ControlCharacter(String),
    /// An expected token is of the wrong type.
    IncorrectToken(String),
    /// An unknown parameter is encountered.
    UnknownParameter(String),
    /// An unknown property name is encountered.
    UnknownPropertyName(String),
    /// A property value is invalid.
    InvalidPropertyValue,
    /// A time is invalid.
    InvalidTime(String),
    /// A date is invalid.
    InvalidDate(String),
    /// A delivery address (`ADR`) is invalid.
    InvalidAddress(String),
    /// A LABEL parameter is specified on a property other than ADR.
    InvalidLabel(String),
    /// A boolean is invalid.
    InvalidBoolean(String),
    /// A CLIENTPIDMAP value could not be parsed.
    InvalidClientPidMap(String),
    /// A UTC offset is not of the form `[+-]hhmm`.
    InvalidUtcOffset(String),
    /// A property or parameter delimiter was expected.
    DelimiterExpected,
    /// A value type is not supported.
    UnknownValueType(String),
    /// A TYPE for a RELATED property is not supported.
    UnknownRelatedType(String),
    /// A TYPE for a TEL property is not supported.
    UnknownTelephoneType(String),
    /// A VALUE is not supported for the property (value, property).
    UnsupportedValueType(String, String),
    /// A KIND is not supported.
    UnknownKind(String),
    /// The sex of a GENDER is not supported.
    UnknownSex(String),
    /// A GENDER does not specify the sex.
    NoSex,
    /// A property appears more than once.
    OnlyOnce(String),
    /// The FN property is not specified.
    NoFormattedName,
    /// A date time is not valid, maybe missing the `T` delimiter.
    InvalidDateTime(String),
    /// A TYPE parameter is given for a property that does not support it.
    TypeParameter(String),
    /// A PREF is out of bounds.
    PrefOutOfRange(u8),
    /// A PID is invalid.
    InvalidPid(String),
    /// A value that must be enclosed in quotes was not.
    NotQuoted(String),
    /// MEMBER is specified but the kind is not group.
    MemberRequiresGroup,
    /// The PID parameter is used on the CLIENTPIDMAP property.
    ClientPidMapPidNotAllowed,
    /// A text is not a URI reference.
    UriParse(uriparse::URIReferenceError),
    /// A text is a relative reference where a URI, with its scheme, is due.
    NotUri(String),
    /// A text is not a well-formed language tag.
    LanguageParse(language_tags::ParseError),
    /// A calendar component is out of range.
    ComponentRange(time::error::ComponentRange),
    /// Error generated during lexing.
    LexError(LexError),
    /// A CHARSET other than UTF-8 is specified.
    CharsetParameter(String),
}

} // verus!
