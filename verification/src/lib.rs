//! A catalog of format-validation predicates.
//!
//! Each public function takes a string and reports whether the whole input
//! (or, for the generic URL check, a prefix of it) belongs to a fixed
//! language: phone numbers, identity-card numbers, URLs, base64 data URIs,
//! bank-card numbers, train numbers, and so on.  Every predicate is a pure
//! function of its input: its contract equates the result with a spec-level
//! description of the language, so two calls on the same input always agree.
//!
//! The digit, letter, word-character and whitespace classes used by the
//! patterns are the ASCII ones: a fullwidth or other non-ASCII digit is not
//! a digit here.  Characters outside ASCII are still accepted wherever a
//! pattern's class is defined by exclusion, such as the host labels of the
//! generic URL check.

pub mod classes;
pub mod common;
pub mod id_card;
pub mod laws;
pub mod phone;
