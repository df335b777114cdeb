//! The cursor splitter: a movable character cursor over one run, from which
//! the two views of the run at the cursor are taken.

use vstd::prelude::*;
use crate::offsets::byte_offset;
use crate::run::{BoundsError, DocString, Span};

verus! {

/// A run under division. The cursor is a character offset from the start of
/// the run; it may be moved any number of times before the views are taken.
///
/// `left` shows what stands at or after the cursor. `right` hands out the
/// run as it was given, and leaves what stands before the cursor in the same
/// slot that `left` fills, so each overwrites what the other left there.
#[derive(Debug)]
pub struct DividedString {
    original_range: Span,
    length: usize,
    left_string: DocString,
    right_string: DocString,
    index: usize,
}

impl DividedString {
    /// The run being divided, as it was given.
    pub closed spec fn source(&self) -> DocString {
        self.right_string
    }

    /// The slot that `left` and `right` write their view into.
    pub closed spec fn slot(&self) -> DocString {
        self.left_string
    }

    /// The cursor, in characters from the start of the run.
    pub closed spec fn cursor(&self) -> int {
        self.index as int
    }

    /// The byte range of the run at construction.
    pub closed spec fn original_range(&self) -> Span {
        self.original_range
    }

    #[verifier::type_invariant]
    spec fn cursor_in_range(&self) -> bool {
        &&& self.index <= self.length
        &&& self.length == self.right_string@.len()
        &&& self.original_range.start == self.right_string.byte_start()
        &&& self.original_range.end == self.right_string.byte_end()
    }

    /// A splitter over `input` with the cursor at `index`, which must be the
    /// index of one of its characters.
    pub fn new(input: DocString, index: usize) -> (r: DividedString)
        requires
            index < input@.len(),
        ensures
            r.source() == input,
            r.slot() == input,
            r.cursor() == index,
            r.original_range().start == input.byte_start(),
            r.original_range().end == input.byte_end(),
    {
        let char_len: usize = input.char_len();
        DividedString {
            original_range: input.byte_range(),
            length: char_len,
            left_string: input.clone(),
            right_string: input,
            index: index,
        }
    }

    /// As `new`, but an index that is not the index of a character of
    /// `input` is refused.
    pub fn try_new(input: DocString, index: usize) -> (r: Result<DividedString, BoundsError>)
        ensures
            index < input@.len() ==> r is Ok && r.unwrap().source() == input && r.unwrap().slot()
                == input && r.unwrap().cursor() == index,
            index >= input@.len() ==> r == Err::<DividedString, BoundsError>(BoundsError::InvalidIndex),
    {
        if index < input.char_len() {
            Ok(DividedString::new(input, index))
        } else {
            Err(BoundsError::InvalidIndex)
        }
    }

    /// Moves the cursor by `index` characters, forward or backward. The new
    /// position must lie within the run, its end included.
    pub fn seek(&mut self, index: isize)
        requires
            0 <= old(self).cursor() + index <= old(self).source()@.len(),
        ensures
            final(self).cursor() == old(self).cursor() + index,
            final(self).source() == old(self).source(),
            final(self).slot() == old(self).slot(),
            final(self).original_range() == old(self).original_range(),
    {
        proof {
            use_type_invariant(&*self);
        }
        let target: i128 = (self.index as i128) + (index as i128);
        self.index = target as usize;
    }

    /// As `seek`, but a move that leaves the run is refused and the cursor
    /// stays where it was.
    pub fn try_seek(&mut self, index: isize) -> (r: Result<(), BoundsError>)
        ensures
            final(self).source() == old(self).source(),
            final(self).slot() == old(self).slot(),
            final(self).original_range() == old(self).original_range(),
            old(self).cursor() + index < 0 ==> r == Err::<(), BoundsError>(BoundsError::BeforeStart)
                && final(self).cursor() == old(self).cursor(),
            old(self).cursor() + index > old(self).source()@.len() ==> r == Err::<(), BoundsError>(
                BoundsError::BeyondEnd,
            ) && final(self).cursor() == old(self).cursor(),
            0 <= old(self).cursor() + index <= old(self).source()@.len() ==> r == Ok::<
                (),
                BoundsError,
            >(()) && final(self).cursor() == old(self).cursor() + index,
    {
        proof {
            use_type_invariant(&*self);
        }
        let target: i128 = (self.index as i128) + (index as i128);
        if target < 0 {
            Err(BoundsError::BeforeStart)
        } else if target > (self.length as i128) {
            Err(BoundsError::BeyondEnd)
        } else {
            self.seek(index);
            Ok(())
        }
    }

    /// Fills the slot with the part of the run at or after the cursor.
    fn update_left(&mut self)
        ensures
            final(self).source() == old(self).source(),
            final(self).cursor() == old(self).cursor(),
            final(self).original_range() == old(self).original_range(),
            final(self).slot()@ == old(self).source()@.skip(old(self).cursor()),
            final(self).slot().styles_view() == old(self).source().styles_view(),
            final(self).slot().buffer_text() == old(self).source().buffer_text(),
            final(self).slot().byte_start() == old(self).original_range().start + byte_offset(
                old(self).source()@,
                old(self).cursor(),
            ),
            final(self).slot().byte_end() == old(self).original_range().end,
    {
        proof {
            use_type_invariant(&*self);
        }
        let (_, after) = self.right_string.split_at(self.index);
        self.left_string = after;
    }

    /// The part of the run at or after the cursor; none while the cursor is
    /// at the start.
    pub fn left<'a>(&'a mut self) -> (r: Option<&'a DocString>)
        ensures
            final(self).source() == old(self).source(),
            final(self).cursor() == old(self).cursor(),
            final(self).original_range() == old(self).original_range(),
            old(self).cursor() == 0 ==> r is None && final(self).slot() == old(self).slot(),
            old(self).cursor() != 0 ==> {
                &&& *r.unwrap() == final(self).slot()
                &&& r is Some
                &&& r.unwrap()@ == old(self).source()@.skip(old(self).cursor())
                &&& r.unwrap().styles_view() == old(self).source().styles_view()
                &&& r.unwrap().buffer_text() == old(self).source().buffer_text()
                &&& r.unwrap().byte_start() == old(self).original_range().start + byte_offset(
                    old(self).source()@,
                    old(self).cursor(),
                )
                &&& r.unwrap().byte_end() == old(self).original_range().end
            },
    {
        if self.index == 0 {
            None
        } else {
            self.update_left();
            Some(&self.left_string)
        }
    }

    /// Fills the slot with the part of the run before the cursor.
    fn update_right(&mut self)
        ensures
            final(self).source() == old(self).source(),
            final(self).cursor() == old(self).cursor(),
            final(self).original_range() == old(self).original_range(),
            final(self).slot()@ == old(self).source()@.take(old(self).cursor()),
            final(self).slot().styles_view() == old(self).source().styles_view(),
            final(self).slot().buffer_text() == old(self).source().buffer_text(),
            final(self).slot().byte_start() == old(self).original_range().start,
            final(self).slot().byte_end() == old(self).original_range().start + byte_offset(
                old(self).source()@,
                old(self).cursor(),
            ),
    {
        proof {
            use_type_invariant(&*self);
        }
        let (before, _) = self.right_string.split_at(self.index);
        self.left_string = before;
    }

    /// None while the cursor is at the end of the run. Else the run as it
    /// was given, whole; the part before the cursor is left in the slot.
    pub fn right<'a>(&'a mut self) -> (r: Option<&'a DocString>)
        ensures
            final(self).source() == old(self).source(),
            final(self).cursor() == old(self).cursor(),
            final(self).original_range() == old(self).original_range(),
            old(self).cursor() >= old(self).source()@.len() ==> r is None && final(self).slot()
                == old(self).slot(),
            old(self).cursor() < old(self).source()@.len() ==> {
                &&& r is Some
                &&& *r.unwrap() == old(self).source()
                &&& final(self).slot()@ == old(self).source()@.take(old(self).cursor())
                &&& final(self).slot().styles_view() == old(self).source().styles_view()
                &&& final(self).slot().buffer_text() == old(self).source().buffer_text()
                &&& final(self).slot().byte_start() == old(self).original_range().start
                &&& final(self).slot().byte_end() == old(self).original_range().start + byte_offset(
                    old(self).source()@,
                    old(self).cursor(),
                )
            },
    {
        proof {
            use_type_invariant(&*self);
        }
        if self.index >= self.length {
            None
        } else {
            self.update_right();
            Some(&self.right_string)
        }
    }

    /// Ends the division: the slot as `left` and then `right` leave it, which
    /// is the part of the run before the cursor, and the run as it was given.
    pub fn destruct(self) -> (r: (DocString, DocString))
        ensures
            r.0@ == self.source()@.take(self.cursor()),
            r.0.styles_view() == self.source().styles_view(),
            r.0.buffer_text() == self.source().buffer_text(),
            r.0.byte_start() == self.original_range().start,
            r.0.byte_end() == self.original_range().start + byte_offset(
                self.source()@,
                self.cursor(),
            ),
            r.1 == self.source(),
    {
        let mut this = self;
        this.update_left();
        this.update_right();
        (this.left_string, this.right_string)
    }
}

} // verus!
