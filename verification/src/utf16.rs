//! Binding of [`IcuStrRef`] for UTF-16 unit slices, with the surrogate
//! decoder at its core.
//!
//! Decoding follows the tolerant convention used throughout mainstream
//! Unicode processing: a high surrogate immediately followed by a matching
//! low surrogate yields one supplementary-plane code point and consumes two
//! units; any other unit, including an unpaired surrogate, yields exactly
//! one code point (U+FFFD for a malformed unit) and consumes exactly one
//! unit. Decoding therefore never stalls and never desynchronizes on
//! malformed input.

use crate::icu_str::{IcuCursor, IcuStartError, IcuStrRef};
use vstd::prelude::*;
use vstd::slice::{slice_index_get, slice_subrange};

verus! {

/// The replacement code point U+FFFD, substituted for malformed input.
pub const REPLACEMENT_CHARACTER: char = '\u{FFFD}';

/// True when `v` is a UTF-16 high (leading) surrogate.
pub open spec fn is_high_surrogate(v: u16) -> bool {
    0xD800 <= v <= 0xDBFF
}

/// True when `v` is a UTF-16 low (trailing) surrogate.
pub open spec fn is_low_surrogate(v: u16) -> bool {
    0xDC00 <= v <= 0xDFFF
}

/// The supplementary-plane scalar value jointly encoded by a high and a low
/// surrogate. Lies in `[0x10000, 0x10FFFF]` whenever `hi` and `lo` are in
/// their respective surrogate ranges.
pub open spec fn combined_scalar(hi: u16, lo: u16) -> int {
    (hi - 0xD800) * 0x400 + (lo - 0xDC00) + 0x10000
}

/// True when a valid surrogate pair starts at position `i` of `units`.
pub open spec fn has_pair_at(units: Seq<u16>, i: int) -> bool {
    &&& 0 <= i
    &&& i + 1 < units.len()
    &&& is_high_surrogate(units[i])
    &&& is_low_surrogate(units[i + 1])
}

/// How many units one decoding step starting at position `i` consumes:
/// two for a valid surrogate pair, one for everything else.
pub open spec fn step_at(units: Seq<u16>, i: int) -> int {
    if has_pair_at(units, i) {
        2
    } else {
        1
    }
}

/// The code point one decoding step starting at position `i` yields.
pub open spec fn char_at(units: Seq<u16>, i: int) -> char {
    if has_pair_at(units, i) {
        combined_scalar(units[i], units[i + 1]) as char
    } else if is_high_surrogate(units[i]) || is_low_surrogate(units[i]) {
        REPLACEMENT_CHARACTER
    } else {
        units[i] as char
    }
}

/// The `(offset, code point)` pairs decoding yields from position `i` of
/// `units` to the end, with offsets counted from the start of `units`.
pub open spec fn utf16_items_from(units: Seq<u16>, i: int) -> Seq<(usize, char)>
    decreases units.len() - i,
{
    if i < 0 || i >= units.len() {
        Seq::empty()
    } else {
        seq![(i as usize, char_at(units, i))] + utf16_items_from(units, i + step_at(units, i))
    }
}

/// The code points alone, in decoding order, from position `i` to the end.
pub open spec fn utf16_chars_from(units: Seq<u16>, i: int) -> Seq<char>
    decreases units.len() - i,
{
    if i < 0 || i >= units.len() {
        Seq::empty()
    } else {
        seq![char_at(units, i)] + utf16_chars_from(units, i + step_at(units, i))
    }
}

/// True when starting an iteration at offset `n` would split a valid
/// surrogate pair, so that the pair would decode differently than it does
/// in a pass over the whole buffer.
pub open spec fn splits_pair(units: Seq<u16>, n: int) -> bool {
    &&& 0 < n < units.len()
    &&& is_high_surrogate(units[n - 1])
    &&& is_low_surrogate(units[n])
}

/// True when `n` is a valid offset to start an iteration at: within range
/// and not splitting a surrogate pair. The buffer's length itself is valid
/// and yields an empty iteration.
pub open spec fn valid_utf16_start(units: Seq<u16>, n: int) -> bool {
    0 <= n <= units.len() && !splits_pair(units, n)
}

/// Starting an iteration exactly at the buffer's length succeeds and
/// yields an empty sequence: end-of-range is not an error.
pub proof fn lemma_start_at_length(units: Seq<u16>)
    ensures
        valid_utf16_start(units, units.len() as int),
        utf16_items_from(units.skip(units.len() as int), 0) == Seq::<(usize, char)>::empty(),
{
    assert(units.skip(units.len() as int).len() == 0);
}

/// One decoding step never lands in the middle of a surrogate pair: from
/// any position, the position one step ahead is a valid starting offset.
pub proof fn lemma_step_lands_on_valid_start(units: Seq<u16>, i: int)
    requires
        0 <= i < units.len(),
    ensures
        valid_utf16_start(units, i + step_at(units, i)),
{
    let j = i + step_at(units, i);
    if splits_pair(units, j) {
        if has_pair_at(units, i) {
            // A step of two lands right after a low surrogate, which cannot
            // be the high surrogate of a split pair.
            assert(is_low_surrogate(units[j - 1]));
            assert(false);
        } else {
            // A step of one away from a high surrogate happens only when no
            // low surrogate follows.
            assert(is_high_surrogate(units[i]) && is_low_surrogate(units[i + 1]));
            assert(has_pair_at(units, i));
            assert(false);
        }
    }
}

/// Every offset a decoding pass yields is a valid offset to start a new
/// iteration at (the first half of the resumable-offset guarantee; see
/// [`lemma_yielded_offset_resumes`] for the composed form).
pub proof fn lemma_items_offsets_are_valid_starts(units: Seq<u16>, i: int, j: int)
    requires
        units.len() <= usize::MAX,
        valid_utf16_start(units, i),
        0 <= j < utf16_items_from(units, i).len(),
    ensures
        valid_utf16_start(units, utf16_items_from(units, i)[j].0 as int),
    decreases units.len() - i,
{
    if i < units.len() {
        if j == 0 {
            assert(utf16_items_from(units, i)[0].0 == i as usize);
        } else {
            lemma_step_lands_on_valid_start(units, i);
            lemma_items_offsets_are_valid_starts(units, i + step_at(units, i), j - 1);
        }
    }
}

/// Every offset a pass yields lies at or beyond the position the pass has
/// reached.
proof fn lemma_offsets_lower_bound(units: Seq<u16>, i: int, j: int)
    requires
        units.len() <= usize::MAX,
        0 <= i,
        0 <= j < utf16_items_from(units, i).len(),
    ensures
        utf16_items_from(units, i)[j].0 >= i,
    decreases units.len() - i,
{
    if j > 0 {
        lemma_offsets_lower_bound(units, i + step_at(units, i), j - 1);
    }
}

/// Offsets are unique within one iteration and always increase in value.
pub proof fn lemma_offsets_strictly_increase(units: Seq<u16>, i: int, j1: int, j2: int)
    requires
        units.len() <= usize::MAX,
        0 <= i,
        0 <= j1 < j2 < utf16_items_from(units, i).len(),
    ensures
        utf16_items_from(units, i)[j1].0 < utf16_items_from(units, i)[j2].0,
    decreases j1,
{
    if j1 == 0 {
        lemma_offsets_lower_bound(units, i + step_at(units, i), j2 - 1);
    } else {
        lemma_offsets_strictly_increase(units, i + step_at(units, i), j1 - 1, j2 - 1);
    }
}

/// For all buffers and all offsets `n` that are either `0` or a value
/// yielded by a prior iteration over the same buffer (composed with that
/// iteration's own starting offset `s`), starting a new iteration at `n`
/// succeeds.
pub proof fn lemma_yielded_offset_resumes(units: Seq<u16>, s: int, j: int)
    requires
        units.len() <= usize::MAX,
        valid_utf16_start(units, s),
        0 <= j < utf16_items_from(units.skip(s), 0).len(),
    ensures
        valid_utf16_start(units, s + utf16_items_from(units.skip(s), 0)[j].0),
{
    let rest = units.skip(s);
    assert(valid_utf16_start(rest, 0));
    lemma_items_offsets_are_valid_starts(rest, 0, j);
    let off = utf16_items_from(rest, 0)[j].0 as int;
    assert(valid_utf16_start(rest, off));
    if splits_pair(units, s + off) {
        // The boundary test is local, so it transfers from the suffix to
        // the whole buffer: the two units around `s + off` are the two
        // units around `off` in the suffix, unless `off` is 0, in which
        // case `s + off` is the valid start `s` itself.
        if off == 0 {
            assert(!splits_pair(units, s));
        } else {
            assert(rest[off - 1] == units[s + off - 1]);
            assert(rest[off] == units[s + off]);
            assert(splits_pair(rest, off));
        }
        assert(false);
    }
}

/// Decoding from position `i` of the whole buffer yields the same code
/// points as decoding from position `i - k` of the suffix starting at `k`.
proof fn lemma_chars_from_skip(units: Seq<u16>, k: int, i: int)
    requires
        0 <= k <= i,
        k <= units.len(),
    ensures
        utf16_chars_from(units, i) == utf16_chars_from(units.skip(k), i - k),
    decreases units.len() - i,
{
    let rest = units.skip(k);
    if i >= units.len() {
        assert(utf16_chars_from(units, i) =~= utf16_chars_from(rest, i - k));
    } else {
        assert(rest[i - k] == units[i]);
        assert(i + 1 < units.len() ==> rest[i - k + 1] == units[i + 1]);
        assert(has_pair_at(rest, i - k) == has_pair_at(units, i));
        assert(char_at(rest, i - k) == char_at(units, i));
        assert(step_at(rest, i - k) == step_at(units, i));
        lemma_chars_from_skip(units, k, i + step_at(units, i));
        assert(utf16_chars_from(units, i) == seq![char_at(units, i)] + utf16_chars_from(
            units,
            i + step_at(units, i),
        ));
        assert(utf16_chars_from(rest, i - k) == seq![char_at(rest, i - k)] + utf16_chars_from(
            rest,
            i - k + step_at(rest, i - k),
        ));
        assert(utf16_chars_from(units, i) =~= utf16_chars_from(rest, i - k));
    }
}

/// Decoding from position `i` of the whole buffer yields the same code
/// points as decoding from `i` in the prefix of length `k` followed by
/// decoding from `k`, provided `k` does not split a surrogate pair.
proof fn lemma_chars_from_take(units: Seq<u16>, k: int, i: int)
    requires
        0 <= i <= k <= units.len(),
        !splits_pair(units, k),
    ensures
        utf16_chars_from(units, i) == utf16_chars_from(units.take(k), i) + utf16_chars_from(
            units,
            k,
        ),
    decreases k - i,
{
    let front = units.take(k);
    if i == k {
        assert(utf16_chars_from(front, i) =~= Seq::<char>::empty());
        assert(utf16_chars_from(units, i) =~= utf16_chars_from(front, i) + utf16_chars_from(
            units,
            k,
        ));
    } else {
        assert(front[i] == units[i]);
        assert(i + 1 < k ==> front[i + 1] == units[i + 1]);
        // The step taken at `i` is the same in the prefix as in the whole
        // buffer: a pair that the prefix cuts off would make `k` a split
        // offset.
        if has_pair_at(units, i) && !has_pair_at(front, i) {
            assert(i + 1 == k);
            assert(splits_pair(units, k));
            assert(false);
        }
        assert(has_pair_at(front, i) == has_pair_at(units, i));
        assert(char_at(front, i) == char_at(units, i));
        assert(step_at(front, i) == step_at(units, i));
        assert(i + step_at(units, i) <= k);
        lemma_chars_from_take(units, k, i + step_at(units, i));
        assert(utf16_chars_from(units, i) =~= utf16_chars_from(front, i) + utf16_chars_from(
            units,
            k,
        ));
    }
}

/// Decoding the full buffer in one pass yields the same sequence of code
/// points as decoding the prefix `[0, k)` on its own and then resuming at
/// offset `k`, for any `k` that does not split a surrogate pair.
pub proof fn lemma_split_pass(units: Seq<u16>, k: int)
    requires
        valid_utf16_start(units, k),
    ensures
        utf16_chars_from(units, 0) == utf16_chars_from(units.take(k), 0) + utf16_chars_from(
            units.skip(k),
            0,
        ),
{
    lemma_chars_from_take(units, k, 0);
    lemma_chars_from_skip(units, k, k);
}

/// A high surrogate at position `p` immediately followed by a matching low
/// surrogate decodes to exactly one code point at offset `p`, and decoding
/// continues at `p + 2`: the next yielded offset, if any, is `p + 2`.
pub proof fn lemma_pair_step(units: Seq<u16>, p: int)
    requires
        0 <= p,
        p + 1 < units.len(),
        is_high_surrogate(units[p]),
        is_low_surrogate(units[p + 1]),
    ensures
        utf16_items_from(units, p) == seq![
            (p as usize, combined_scalar(units[p], units[p + 1]) as char),
        ] + utf16_items_from(units, p + 2),
        0x10000 <= combined_scalar(units[p], units[p + 1]) <= 0x10FFFF,
{
    assert(has_pair_at(units, p));
    assert(utf16_items_from(units, p) =~= seq![
        (p as usize, combined_scalar(units[p], units[p + 1]) as char),
    ] + utf16_items_from(units, p + 2));
}

/// Any isolated high or low surrogate decodes to U+FFFD and advances
/// exactly one position.
pub proof fn lemma_unpaired_step(units: Seq<u16>, p: int)
    requires
        0 <= p < units.len(),
        is_high_surrogate(units[p]) || is_low_surrogate(units[p]),
        !has_pair_at(units, p),
    ensures
        utf16_items_from(units, p) == seq![(p as usize, REPLACEMENT_CHARACTER)]
            + utf16_items_from(units, p + 1),
{
    assert(utf16_items_from(units, p) =~= seq![(p as usize, REPLACEMENT_CHARACTER)]
        + utf16_items_from(units, p + 1));
}

/// Classification of one UTF-16 code unit: either a stand-alone code point
/// or one half of a (potential) surrogate pair.
pub enum Utf16Type {
    /// The unit is a valid stand-alone code point.
    Normal(char),
    /// The unit is a high surrogate, in `[0xD800, 0xDBFF]`.
    HighSurrogate(u32),
    /// The unit is a low surrogate, in `[0xDC00, 0xDFFF]`.
    LowSurrogate(u32),
}

/// Classifies one UTF-16 code unit. Total: every 16-bit value falls in
/// exactly one class.
pub fn as_utf16_type(v: u16) -> (t: Utf16Type)
    ensures
        is_high_surrogate(v) ==> t == Utf16Type::HighSurrogate(v as u32),
        is_low_surrogate(v) ==> t == Utf16Type::LowSurrogate(v as u32),
        !is_high_surrogate(v) && !is_low_surrogate(v) ==> t == Utf16Type::Normal(v as char),
{
    if 0xD800 <= v && v <= 0xDBFF {
        Utf16Type::HighSurrogate(v as u32)
    } else if 0xDC00 <= v && v <= 0xDFFF {
        Utf16Type::LowSurrogate(v as u32)
    } else {
        // Any 16-bit value outside the surrogate ranges is a Unicode scalar.
        let c = char::from_u32(v as u32);
        proof {
            assert(vstd::utf8::is_scalar(v as u32));
        }
        match c {
            Some(c) => {
                proof {
                    vstd::utf8::char_u32_cast(c, v as u32);
                }
                Utf16Type::Normal(c)
            },
            None => vstd::pervasive::unreached(),
        }
    }
}

/// Cursor for UTF-16 sequences from [`IcuStrRef`]. Borrows the slice the
/// iteration was started over and keeps only its own position in it.
pub struct Utf16CharIndices<'a> {
    utf16: &'a [u16],
    n: usize,
}

impl<'a> Utf16CharIndices<'a> {
    /// The units of the slice this cursor walks.
    pub closed spec fn units(self) -> Seq<u16> {
        self.utf16@
    }

    /// The cursor's position, in units from the start of its slice.
    pub closed spec fn pos(self) -> int {
        self.n as int
    }

    /// Decodes the next code point and advances the internal position by
    /// the number of units consumed. The caller must have checked that the
    /// end of the sequence has not been reached yet.
    fn decode_next_utf16(&mut self) -> (c: char)
        requires
            old(self).pos() < old(self).units().len(),
        ensures
            final(self).units() == old(self).units(),
            c == char_at(old(self).units(), old(self).pos()),
            final(self).pos() == old(self).pos() + step_at(old(self).units(), old(self).pos()),
    {
        let len = self.utf16.len();
        let v: u16 = *slice_index_get(self.utf16, self.n);
        self.n = self.n + 1;
        match as_utf16_type(v) {
            // Non-surrogate (BMP) code point.
            Utf16Type::Normal(c) => c,
            Utf16Type::HighSurrogate(hi) => {
                if self.n < len {
                    // There is at least one more unit after the high surrogate.
                    match as_utf16_type(*slice_index_get(self.utf16, self.n)) {
                        // High surrogate followed by a low surrogate.
                        Utf16Type::LowSurrogate(lo) => {
                            self.n = self.n + 1;
                            let scalar: u32 = (hi - 0xD800) * 0x400 + (lo - 0xDC00) + 0x10000;
                            match char::from_u32(scalar) {
                                Some(c) => {
                                    proof {
                                        vstd::utf8::char_u32_cast(c, scalar);
                                    }
                                    c
                                },
                                None => vstd::pervasive::unreached(),
                            }
                        },
                        // High surrogate followed by something else.
                        _ => REPLACEMENT_CHARACTER,
                    }
                } else {
                    // High surrogate at the end of the range.
                    REPLACEMENT_CHARACTER
                }
            },
            // Unpaired low surrogate.
            Utf16Type::LowSurrogate(_) => REPLACEMENT_CHARACTER,
        }
    }
}

impl<'a> IcuCursor for Utf16CharIndices<'a> {
    open spec fn future(self) -> Seq<(usize, char)> {
        utf16_items_from(self.units(), self.pos())
    }

    open spec fn wf(self) -> bool {
        0 <= self.pos() <= self.units().len()
    }

    fn next(&mut self) -> (r: Option<(usize, char)>) {
        if self.n < self.utf16.len() {
            let ghost units = self.units();
            let ghost i = self.pos();
            let offset = self.n;
            let c = self.decode_next_utf16();
            proof {
                assert(self.future() =~= utf16_items_from(units, i).drop_first());
            }
            Some((offset, c))
        } else {
            None
        }
    }
}

impl<'a> IcuStrRef<'a> for &'a [u16] {
    type Iter = Utf16CharIndices<'a>;

    open spec fn unit_len(self) -> int {
        self@.len() as int
    }

    open spec fn valid_start(self, n: int) -> bool {
        valid_utf16_start(self@, n)
    }

    open spec fn items_from(self, n: int) -> Seq<(usize, char)> {
        utf16_items_from(self@.skip(n), 0)
    }

    proof fn lemma_valid_start_zero(self) {
    }

    proof fn lemma_valid_start_in_range(self, n: int) {
    }

    fn icu_chars(self, n: usize) -> (it: Utf16CharIndices<'a>) {
        let rest = slice_subrange(self, n, self.len());
        proof {
            assert(rest@ =~= self@.skip(n as int));
        }
        Utf16CharIndices { utf16: rest, n: 0 }
    }

    fn try_icu_chars(self, n: usize) -> (r: Result<Utf16CharIndices<'a>, IcuStartError>) {
        if n > self.len() {
            Err(IcuStartError::OutOfRange)
        } else if n > 0 && n < self.len() {
            // The requested offset must not split a valid surrogate pair;
            // only the two units around the boundary are examined.
            let before = as_utf16_type(*slice_index_get(self, n - 1));
            let at = as_utf16_type(*slice_index_get(self, n));
            let splits = match before {
                Utf16Type::HighSurrogate(_) => match at {
                    Utf16Type::LowSurrogate(_) => true,
                    _ => false,
                },
                _ => false,
            };
            if splits {
                Err(IcuStartError::SplitsCharacter)
            } else {
                Ok(self.icu_chars(n))
            }
        } else {
            Ok(self.icu_chars(n))
        }
    }
}

} // verus!
