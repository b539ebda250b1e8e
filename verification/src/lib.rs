//! References to types, for code that writes code.
//!
//! A [`ty::Type`] is a name with the generic arguments it is applied to. It is
//! made from a text such as `BTreeMap<Vec<u8>, foo::Bar>`, can be given further
//! arguments and a qualifying path, and writes itself to a
//! [`formatter::Formatter`].
//!
//! Every function is verified against its contract. What is taken on trust is
//! what `syn` reads out of a text and how `quote` prints it: see [`parse`].

pub mod formatter;
pub mod parse;
pub mod syntax;
pub mod text;
pub mod ty;
