//! Typed vCard 4.0 values: property records, their value grammars, and the
//! card-level rules that a parsed card obeys.

pub mod address;
pub mod card;
pub mod date;
pub mod daytime;
pub mod error;
pub mod lexer;
pub mod offset;
pub mod parameter;
pub mod parser;
pub mod property;
pub mod text;
pub mod unfold;
pub mod value;
pub mod write;

pub use address::DeliveryAddress;
pub use card::{Card, ContentLine};
pub use date::Date;
pub use daytime::{Time, Zone};
pub use error::{Error, LexError};
pub use offset::{UtcOffset, UtcOffsetProperty};
pub use parameter::Parameters;
pub use parser::parse;
pub use property::{
    AddressProperty, ClientPidMap, ClientPidMapProperty, DateAndOrTime, DateAndOrTimeProperty,
    DateTimeOrTextProperty, DateTimeProperty, Gender, GenderProperty, Kind, KindProperty, Property,
    Sex, TextListProperty, TextProperty,
};
pub use value::{LanguageProperty, TextOrUriProperty, TimeZoneProperty, UriProperty};
