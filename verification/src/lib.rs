//! Wolfram Exchange Format codec: a value model for symbolic expressions
//! together with its binary and textual encoders.

pub mod associations;
pub mod binary;
pub mod binary32;
pub mod builders;
pub mod canonical;
pub mod compare;
pub mod compress;
pub mod documents;
pub mod error;
pub mod formats;
pub mod integers;
pub mod laws;
pub mod model;
pub mod notation;
pub mod numbers;
pub mod order;
pub mod readable;
pub mod registry;
pub mod serializer;
pub mod symbols;
pub mod text;
pub mod traits;
pub mod value;
pub mod varint;

pub use crate::associations::{WolframAssociation, WolframRule};
pub use crate::builders::date_object;
pub use crate::documents::{Document, DocumentEntry};
pub use crate::error::{IoFailure, WXFError, WolframError};
pub use crate::formats::{detect_format, Error, SupportedFormat};
pub use crate::integers::BigInteger;
pub use crate::model::KeyOrder;
pub use crate::notation::DecimalText;
pub use crate::readable::{ReadableBuffer, ReadableWriter};
pub use crate::registry::SYSTEM_SYMBOLS;
pub use crate::serializer::{
    SerializeAsFunction, SerializerAsAssociation, SerializerAsList, WolframSerializer,
};
pub use crate::symbols::WolframSymbol;
pub use crate::traits::ToWolfram;
pub use crate::value::{WolframFunction, WolframPair, WolframValue};
