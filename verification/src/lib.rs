//! A parser for a small subset of XML: elements with attributes, nested
//! elements and character data. Character data that reads as a signed 32-bit
//! integer becomes a number, all other a trimmed string.
//!
//! [`parse_xml`] matches the input against the [`grammar`], which gives a tree of
//! rule-tagged [`Span`]s, and the tree [`builder`] turns that tree into
//! [`XmlValue`]s.

pub mod builder;
pub mod chars;
pub mod engine;
pub mod error;
pub mod grammar;
pub mod invariants;
pub mod leaf;
pub mod parse;
pub mod scan;
pub mod shape;
pub mod span;
pub mod tree;
pub mod value;

pub use crate::error::{SyntaxFault, XmlParseError};
pub use crate::parse::parse_xml;
pub use crate::span::{Rule, Span};
pub use crate::value::XmlValue;
