//! The position-addressable code-point iteration interface.
//!
//! `IcuStrRef` is the abstraction every concrete storage kind implements:
//! given a starting offset, produce a position-tagged sequence of code
//! points. `IcuCursor` is the contract of the cursors those iterations hand
//! out. Offsets are measured in storage units (bytes for UTF-8 storage,
//! 16-bit units for UTF-16 storage), and the offsets a cursor yields are
//! always relative to the start of the iteration that produced them.

use vstd::prelude::*;

verus! {

/// Why a starting offset handed to [`IcuStrRef::try_icu_chars`] was rejected.
///
/// Both cases mean the caller passed an offset that was not obtained from a
/// prior iteration over the same buffer; they are distinguishable from an
/// ordinary end of iteration, which is not an error.
#[derive(Clone, Copy, Debug, PartialEq, Eq, Structural)]
pub enum IcuStartError {
    /// The offset lies beyond the end of the buffer.
    OutOfRange,
    /// The offset falls in the middle of the encoding of one code point
    /// (for UTF-16 storage: it would split a valid surrogate pair).
    SplitsCharacter,
}

/// A cursor over the remaining `(offset, code point)` pairs of one iteration.
///
/// Each call to [`next`](IcuCursor::next) yields the first pair of
/// [`future`](IcuCursor::future) and drops it from `future`, until `future`
/// is empty; after that `next` yields nothing, forever.
pub trait IcuCursor: Sized {
    /// The pairs this cursor has yet to yield, in order.
    spec fn future(self) -> Seq<(usize, char)>;

    /// Internal well-formedness of the cursor's position bookkeeping.
    /// Established by [`IcuStrRef::icu_chars`] and preserved by `next`.
    spec fn wf(self) -> bool;

    /// Yields the next `(offset, code point)` pair, or `None` once the
    /// buffer is exhausted.
    fn next(&mut self) -> (r: Option<(usize, char)>)
        requires
            old(self).wf(),
        ensures
            final(self).wf(),
            old(self).future().len() == 0 ==> r is None && final(self).future()
                == old(self).future(),
            old(self).future().len() > 0 ==> r == Some(old(self).future()[0])
                && final(self).future() == old(self).future().drop_first(),
    ;
}

/// A `char` sequence without reference to an underlying encoding.
///
/// The iterated offset represents the position, in storage units of the
/// underlying encoding, of the start of the associated `char`. The rules for
/// handling offsets are:
///
/// * The only constant offset which can be used safely to start an iteration
///   is `0` (and, trivially, the buffer's length, which yields nothing).
/// * Offsets obtained during iteration are always relative to the start of
///   that iteration (the first iterated code point always has offset `0`).
/// * Offsets are unique in an iteration and always increase in value.
/// * An offset within an iteration can be added to the starting offset of
///   that iteration to obtain a new starting offset from that point, which
///   permits storing an offset in order to rewind iteration later.
pub trait IcuStrRef<'a>: Sized {
    /// The cursor type iterations over this storage kind hand out.
    type Iter: IcuCursor;

    /// The buffer's length in storage units.
    spec fn unit_len(self) -> int;

    /// True when `n` is a valid offset to start an iteration at: it is
    /// within range and does not fall in the middle of the encoding of one
    /// code point. Every offset that a prior iteration over the same buffer
    /// yielded (composed with that iteration's own starting offset)
    /// satisfies this, as does `0` and the buffer's length.
    spec fn valid_start(self, n: int) -> bool;

    /// The `(offset, code point)` pairs an iteration started at `n` yields,
    /// with offsets relative to `n`.
    spec fn items_from(self, n: int) -> Seq<(usize, char)>;

    /// An iteration may always be started at the beginning of the buffer.
    proof fn lemma_valid_start_zero(self)
        ensures
            self.valid_start(0),
    ;

    /// A valid starting offset is never beyond the end of the buffer.
    proof fn lemma_valid_start_in_range(self, n: int)
        requires
            self.valid_start(n),
        ensures
            0 <= n <= self.unit_len(),
    ;

    /// Starts an iteration at offset `n`, which must be a valid starting
    /// offset (`0`, or derived from a previous iteration). For an offset
    /// not known to be valid, use [`try_icu_chars`](IcuStrRef::try_icu_chars).
    fn icu_chars(self, n: usize) -> (it: Self::Iter)
        requires
            self.valid_start(n as int),
        ensures
            it.wf(),
            it.future() == self.items_from(n as int),
    ;

    /// Starts an iteration at offset `n`, rejecting an invalid offset as a
    /// recoverable error instead of demanding validity up front.
    fn try_icu_chars(self, n: usize) -> (r: Result<Self::Iter, IcuStartError>)
        ensures
            self.valid_start(n as int) ==> r is Ok && r->Ok_0.wf() && r->Ok_0.future()
                == self.items_from(n as int),
            n as int > self.unit_len() ==> r == Err::<Self::Iter, IcuStartError>(
                IcuStartError::OutOfRange,
            ),
            n as int <= self.unit_len() && !self.valid_start(n as int) ==> r == Err::<
                Self::Iter,
                IcuStartError,
            >(IcuStartError::SplitsCharacter),
    ;
}

/// Relies on `char::from_u32`: returns `Some` exactly for the Unicode scalar
/// values (at most 0x10FFFF and outside the surrogate range), and the
/// returned `char` has the given value.
pub assume_specification[ char::from_u32 ](v: u32) -> (r: Option<char>)
    ensures
        r is Some <==> vstd::utf8::is_scalar(v),
        r is Some ==> r->0 as u32 == v,
;

/// Starts an iteration at `start` and collects every `(offset, code point)`
/// pair it yields, in order.
pub fn collect_icu_chars<'a, S: IcuStrRef<'a>>(s: S, start: usize) -> (out: Vec<(usize, char)>)
    requires
        s.valid_start(start as int),
    ensures
        out@ == s.items_from(start as int),
{
    let ghost all = s.items_from(start as int);
    let mut it = s.icu_chars(start);
    let mut out: Vec<(usize, char)> = Vec::new();
    loop
        invariant_except_break
            it.wf(),
            out@ + it.future() == all,
        ensures
            out@ == all,
        decreases it.future().len(),
    {
        match it.next() {
            Some(p) => {
                out.push(p);
                proof {
                    assert(out@ + it.future() =~= all);
                }
            },
            None => {
                proof {
                    assert(out@ =~= all);
                }
                break ;
            },
        }
    }
    out
}

} // verus!
