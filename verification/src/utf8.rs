//! Binding of [`IcuStrRef`] for string slices (UTF-8 byte storage).
//!
//! A `&str` is already known to hold well-formed UTF-8, so the decoder here
//! never meets malformed input: each step reads one leading byte, the
//! continuation bytes its class announces, and yields the encoded code
//! point together with its byte offset. Offsets are byte offsets, as for
//! `str` slicing, and an iteration may only be started on a character
//! boundary.

use crate::icu_str::{IcuCursor, IcuStartError, IcuStrRef};
use vstd::prelude::*;
use vstd::slice::slice_index_get;
use vstd::string::StringSliceAdditionalSpecFns;
use vstd::utf8::decode_first_scalar;
use vstd::utf8::is_char_boundary;
use vstd::utf8::is_scalar;
use vstd::utf8::length_of_first_scalar;
use vstd::utf8::pop_first_scalar;
use vstd::utf8::valid_first_scalar;
use vstd::utf8::valid_utf8;

verus! {

/// The `(offset, code point)` pairs decoding yields from byte position `i`
/// of `bytes` to the end, with offsets counted from the start of `bytes`.
/// Positions that do not start a well-formed scalar encoding yield nothing;
/// over the bytes of a `&str` every character boundary starts one.
pub open spec fn utf8_items_from(bytes: Seq<u8>, i: int) -> Seq<(usize, char)>
    decreases bytes.len() - i,
{
    if 0 <= i < bytes.len() && valid_first_scalar(bytes.skip(i)) {
        seq![(i as usize, decode_first_scalar(bytes.skip(i)) as char)] + utf8_items_from(
            bytes,
            i + length_of_first_scalar(bytes.skip(i)),
        )
    } else {
        Seq::empty()
    }
}

/// The code points alone, in decoding order, from byte position `i` to the
/// end.
pub open spec fn utf8_chars_from(bytes: Seq<u8>, i: int) -> Seq<char>
    decreases bytes.len() - i,
{
    if 0 <= i < bytes.len() && valid_first_scalar(bytes.skip(i)) {
        seq![decode_first_scalar(bytes.skip(i)) as char] + utf8_chars_from(
            bytes,
            i + length_of_first_scalar(bytes.skip(i)),
        )
    } else {
        Seq::empty()
    }
}

/// Over well-formed UTF-8, the code points a pass from position `i` yields
/// are exactly the decoding of the byte suffix starting at `i`.
pub proof fn lemma_utf8_chars_decode(bytes: Seq<u8>, i: int)
    requires
        0 <= i <= bytes.len(),
        valid_utf8(bytes.skip(i)),
    ensures
        utf8_chars_from(bytes, i) == vstd::utf8::decode_utf8(bytes.skip(i)),
    decreases bytes.len() - i,
{
    let suff = bytes.skip(i);
    if i == bytes.len() {
        assert(utf8_chars_from(bytes, i) =~= vstd::utf8::decode_utf8(suff));
    } else {
        assert(valid_first_scalar(suff) && valid_utf8(pop_first_scalar(suff)));
        let l = length_of_first_scalar(suff);
        assert(bytes.skip(i + l) =~= pop_first_scalar(suff));
        lemma_utf8_chars_decode(bytes, i + l);
        assert(utf8_chars_from(bytes, i) =~= vstd::utf8::decode_utf8(suff));
    }
}

/// Every offset a pass yields points at a well-formed scalar encoding
/// within the buffer.
proof fn lemma_utf8_items_offsets(bytes: Seq<u8>, i: int, j: int)
    requires
        bytes.len() <= usize::MAX,
        0 <= i,
        0 <= j < utf8_items_from(bytes, i).len(),
    ensures
        i <= utf8_items_from(bytes, i)[j].0 < bytes.len(),
        valid_first_scalar(bytes.skip(utf8_items_from(bytes, i)[j].0 as int)),
    decreases bytes.len() - i,
{
    if j == 0 {
        assert(utf8_items_from(bytes, i)[0].0 == i as usize);
    } else {
        lemma_utf8_items_offsets(bytes, i + length_of_first_scalar(bytes.skip(i)), j - 1);
    }
}

/// Offsets are unique within one iteration and always increase in value.
pub proof fn lemma_utf8_offsets_strictly_increase(bytes: Seq<u8>, i: int, j1: int, j2: int)
    requires
        bytes.len() <= usize::MAX,
        0 <= i,
        0 <= j1 < j2 < utf8_items_from(bytes, i).len(),
    ensures
        utf8_items_from(bytes, i)[j1].0 < utf8_items_from(bytes, i)[j2].0,
    decreases j1,
{
    let l = length_of_first_scalar(bytes.skip(i));
    if j1 == 0 {
        lemma_utf8_items_offsets(bytes, i + l, j2 - 1);
    } else {
        lemma_utf8_offsets_strictly_increase(bytes, i + l, j1 - 1, j2 - 1);
    }
}

/// For all strings and all offsets that are either `0` or a value yielded
/// by a prior iteration over the same string (composed with that
/// iteration's own starting offset `s`), starting a new iteration there
/// succeeds: the composed offset is again a character boundary.
pub proof fn lemma_utf8_yielded_offset_resumes(bytes: Seq<u8>, s: int, j: int)
    requires
        bytes.len() <= usize::MAX,
        valid_utf8(bytes),
        is_char_boundary(bytes, s),
        0 <= j < utf8_items_from(bytes.skip(s), 0).len(),
    ensures
        is_char_boundary(bytes, s + utf8_items_from(bytes.skip(s), 0)[j].0),
{
    let rest = bytes.skip(s);
    vstd::utf8::valid_utf8_split(bytes, s);
    assert(bytes.subrange(s, bytes.len() as int) == rest);
    lemma_utf8_items_offsets(rest, 0, j);
    let off = utf8_items_from(rest, 0)[j].0 as int;
    assert(rest.skip(off) =~= bytes.skip(s + off));
    assert(valid_first_scalar(bytes.skip(s + off)));
    // A position holding a leading byte is a character boundary.
    assert(bytes.skip(s + off)[0] == bytes[s + off]);
    vstd::utf8::is_char_boundary_iff_is_leading_byte(bytes, s + off);
}

/// Starting an iteration exactly at the string's length succeeds and
/// yields an empty sequence: end-of-range is not an error.
pub proof fn lemma_utf8_start_at_length(bytes: Seq<u8>)
    requires
        valid_utf8(bytes),
    ensures
        is_char_boundary(bytes, bytes.len() as int),
        utf8_items_from(bytes.skip(bytes.len() as int), 0) == Seq::<(usize, char)>::empty(),
{
    vstd::utf8::is_char_boundary_start_end_of_seq(bytes);
    assert(bytes.skip(bytes.len() as int).len() == 0);
}

/// Decoding the full string in one pass yields the same sequence of code
/// points as decoding the prefix `[0, k)` on its own and then resuming at
/// offset `k`, for any `k` on a character boundary.
pub proof fn lemma_utf8_split_pass(bytes: Seq<u8>, k: int)
    requires
        valid_utf8(bytes),
        is_char_boundary(bytes, k),
    ensures
        utf8_chars_from(bytes, 0) == utf8_chars_from(bytes.take(k), 0) + utf8_chars_from(
            bytes.skip(k),
            0,
        ),
{
    assert(0 <= k <= bytes.len());
    vstd::utf8::valid_utf8_split(bytes, k);
    vstd::utf8::decode_utf8_split(bytes, k);
    assert(bytes.subrange(0, k) == bytes.take(k));
    assert(bytes.subrange(k, bytes.len() as int) == bytes.skip(k));
    assert(bytes.skip(0) =~= bytes);
    lemma_utf8_chars_decode(bytes, 0);
    let front = bytes.take(k);
    assert(front.skip(0) =~= front);
    lemma_utf8_chars_decode(front, 0);
    let back = bytes.skip(k);
    assert(back.skip(0) =~= back);
    lemma_utf8_chars_decode(back, 0);
}

/// Cursor for UTF-8 sequences from [`IcuStrRef`]. Borrows the bytes of the
/// string the iteration was started over and keeps only its own position.
pub struct Utf8CharIndices<'a> {
    bytes: &'a [u8],
    n: usize,
}

impl<'a> Utf8CharIndices<'a> {
    /// The bytes of the slice this cursor walks.
    pub closed spec fn byte_seq(self) -> Seq<u8> {
        self.bytes@
    }

    /// The cursor's position, in bytes from the start of its slice.
    pub closed spec fn pos(self) -> int {
        self.n as int
    }

    /// Decodes the next code point and advances the internal position by
    /// the number of bytes consumed. The caller must have checked that the
    /// end of the sequence has not been reached yet.
    fn decode_next_utf8(&mut self) -> (c: char)
        requires
            old(self).wf(),
            old(self).pos() < old(self).byte_seq().len(),
        ensures
            final(self).wf(),
            final(self).byte_seq() == old(self).byte_seq(),
            c == decode_first_scalar(old(self).byte_seq().skip(old(self).pos())) as char,
            final(self).pos() == old(self).pos() + length_of_first_scalar(
                old(self).byte_seq().skip(old(self).pos()),
            ),
    {
        let ghost suff = self.bytes@.skip(self.n as int);
        proof {
            // The suffix at the cursor is valid UTF-8 and non-empty, so it
            // starts with a well-formed scalar encoding.
            assert(suff.len() > 0);
            assert(valid_first_scalar(suff));
            assert(forall|j: int| 0 <= j < suff.len() ==> suff[j] == self.bytes@[self.n + j]);
        }
        let len = self.bytes.len();
        let b0 = *slice_index_get(self.bytes, self.n);
        let scalar: u32;
        let width: usize;
        if b0 < 0x80 {
            scalar = b0 as u32;
            width = 1;
            proof {
                assert(b0 & 0x7F == b0) by (bit_vector)
                    requires
                        b0 < 0x80,
                ;
                assert(scalar <= 0x7F);
            }
        } else if b0 < 0xE0 {
            // A well-formed leading byte below 0xE0 that is not ASCII
            // announces one continuation byte.
            let b1 = *slice_index_get(self.bytes, self.n + 1);
            scalar = (((b0 & 0x1F) as u32) << 6u32) | ((b1 & 0x3F) as u32);
            width = 2;
            proof {
                assert(scalar <= 0x7FF) by (bit_vector)
                    requires
                        scalar == (((b0 & 0x1F) as u32) << 6u32) | ((b1 & 0x3F) as u32),
                ;
            }
        } else if b0 < 0xF0 {
            let b1 = *slice_index_get(self.bytes, self.n + 1);
            let b2 = *slice_index_get(self.bytes, self.n + 2);
            scalar = ((((b0 & 0x0F) as u32) << 12u32) | (((b1 & 0x3F) as u32) << 6u32)) | ((b2
                & 0x3F) as u32);
            width = 3;
            proof {
                assert(scalar <= 0xFFFF) by (bit_vector)
                    requires
                        scalar == ((((b0 & 0x0F) as u32) << 12u32) | (((b1 & 0x3F) as u32)
                            << 6u32)) | ((b2 & 0x3F) as u32),
                ;
            }
        } else {
            let b1 = *slice_index_get(self.bytes, self.n + 1);
            let b2 = *slice_index_get(self.bytes, self.n + 2);
            let b3 = *slice_index_get(self.bytes, self.n + 3);
            scalar = (((((b0 & 0x07) as u32) << 18u32) | (((b1 & 0x3F) as u32) << 12u32)) | (((b2
                & 0x3F) as u32) << 6u32)) | ((b3 & 0x3F) as u32);
            width = 4;
        }
        proof {
            assert(scalar == decode_first_scalar(suff));
            assert(width == length_of_first_scalar(suff));
            assert(is_scalar(scalar));
        }
        self.n = self.n + width;
        proof {
            assert(self.bytes@.skip(self.n as int) =~= pop_first_scalar(suff));
        }
        match char::from_u32(scalar) {
            Some(c) => {
                proof {
                    vstd::utf8::char_u32_cast(c, scalar);
                }
                c
            },
            None => vstd::pervasive::unreached(),
        }
    }
}

impl<'a> IcuCursor for Utf8CharIndices<'a> {
    open spec fn future(self) -> Seq<(usize, char)> {
        utf8_items_from(self.byte_seq(), self.pos())
    }

    open spec fn wf(self) -> bool {
        0 <= self.pos() <= self.byte_seq().len() && valid_utf8(self.byte_seq().skip(self.pos()))
    }

    fn next(&mut self) -> (r: Option<(usize, char)>) {
        if self.n < self.bytes.len() {
            let ghost bytes = self.byte_seq();
            let ghost i = self.pos();
            let offset = self.n;
            let c = self.decode_next_utf8();
            proof {
                assert(self.future() =~= utf8_items_from(bytes, i).drop_first());
            }
            Some((offset, c))
        } else {
            None
        }
    }
}

impl<'a> IcuStrRef<'a> for &'a str {
    type Iter = Utf8CharIndices<'a>;

    open spec fn unit_len(self) -> int {
        self.spec_bytes().len() as int
    }

    open spec fn valid_start(self, n: int) -> bool {
        is_char_boundary(self.spec_bytes(), n)
    }

    open spec fn items_from(self, n: int) -> Seq<(usize, char)> {
        utf8_items_from(self.spec_bytes().skip(n), 0)
    }

    proof fn lemma_valid_start_zero(self) {
        vstd::utf8::encode_utf8_valid_utf8(self@);
    }

    proof fn lemma_valid_start_in_range(self, n: int) {
        vstd::utf8::encode_utf8_valid_utf8(self@);
        assert(0 <= n <= self.spec_bytes().len());
    }

    fn icu_chars(self, n: usize) -> (it: Utf8CharIndices<'a>) {
        proof {
            vstd::utf8::encode_utf8_valid_utf8(self@);
            self.lemma_valid_start_in_range(n as int);
        }
        let (_, rest) = self.split_at(n);
        let bytes = rest.as_bytes();
        proof {
            assert(bytes@ =~= self.spec_bytes().skip(n as int));
            vstd::utf8::valid_utf8_split(self.spec_bytes(), n as int);
            assert(valid_utf8(
                self.spec_bytes().subrange(n as int, self.spec_bytes().len() as int),
            ));
            assert(bytes@.skip(0) =~= bytes@);
            assert(valid_utf8(bytes@.skip(0)));
        }
        Utf8CharIndices { bytes, n: 0 }
    }

    fn try_icu_chars(self, n: usize) -> (r: Result<Utf8CharIndices<'a>, IcuStartError>) {
        proof {
            vstd::utf8::encode_utf8_valid_utf8(self@);
        }
        let byte_len = self.as_bytes().len();
        if n > byte_len {
            Err(IcuStartError::OutOfRange)
        } else if !self.is_char_boundary(n) {
            Err(IcuStartError::SplitsCharacter)
        } else {
            Ok(self.icu_chars(n))
        }
    }
}

} // verus!
