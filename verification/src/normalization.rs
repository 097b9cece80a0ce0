//! Unicode normalization interface over [`IcuStrRef`].
//!
//! The normalization algorithms themselves are not implemented here: this
//! module declares the consumer-facing interface and walks the code-point
//! sequence of its input through the encoding-agnostic iteration contract.
//! The NFC check is a stub that accepts every input after walking it; the
//! other forms are declared and reject every input.

use crate::icu_str::{collect_icu_chars, IcuStrRef};
use vstd::prelude::*;

verus! {

/// The four standard Unicode normalization forms.
pub enum Type {
    NFC,
    NFKC,
    NFD,
    NFKD,
}

/// Types whose text can be asked whether it is in a normalization form.
pub trait Normalizer {
    /// True when the text is normalized under form `t`. Only the NFC check
    /// is implemented, as a stub that accepts every input; the other forms
    /// reject every input.
    fn is_normalized(&self, t: Type) -> (r: bool)
        ensures
            r == (t is NFC),
    ;
}

// Bind for `str` (which is most expected usage).
impl Normalizer for str {
    fn is_normalized(&self, t: Type) -> (r: bool) {
        t.is_normalized(self)
    }
}

// Bind for owned strings, through the same `str` path.
impl Normalizer for String {
    fn is_normalized(&self, t: Type) -> (r: bool) {
        t.is_normalized(self.as_str())
    }
}

impl Type {
    /// True when `s` is normalized under this form (see [`Normalizer`]).
    pub fn is_normalized(&self, s: &str) -> (r: bool)
        ensures
            r == (*self is NFC),
    {
        self.is_normalized_icu(s)
    }

    /// True when the text behind any [`IcuStrRef`] storage kind is
    /// normalized under this form (see [`Normalizer`]).
    pub fn is_normalized_icu<'a>(&self, s: impl IcuStrRef<'a>) -> (r: bool)
        ensures
            r == (*self is NFC),
    {
        match self {
            Type::NFC => is_nfc_normalized(s),
            Type::NFKC => false,
            Type::NFD => false,
            Type::NFKD => false,
        }
    }
}

/// Stub of the NFC check: walks the code-point sequence of `s` and accepts.
fn is_nfc_normalized<'a>(s: impl IcuStrRef<'a>) -> (r: bool)
    ensures
        r,
{
    proof {
        s.lemma_valid_start_zero();
    }
    let _items = collect_icu_chars(s, 0);
    true
}

} // verus!
