//! Encoding-agnostic iteration over a text buffer as a sequence of Unicode
//! code points.
//!
//! A caller obtains a cursor for its buffer with `icu_chars(start)` and pulls
//! `(offset, code point)` pairs from it until exhausted. Offsets are measured
//! in storage units of the underlying encoding and may be used to resume a
//! later iteration over the same buffer. Two concrete storage kinds are
//! provided: UTF-8 byte storage (`&str`) and UTF-16 unit storage (`&[u16]`).

pub mod icu_str;
pub mod normalization;
pub mod utf16;
pub mod utf8;
