//! The shared text run: a view into a shared, immutable text buffer, with an
//! optional map of formatting attached.

use std::sync::Arc;
use vstd::prelude::*;
use vstd::std_specs::cmp::PartialEqSpecImpl;
use vstd::string::*;
use vstd::utf8::*;
use crate::offsets::{
    byte_offset, clamp_chars, lemma_boundary_in_prefix, lemma_boundary_in_range,
    lemma_byte_offset_cuts, lemma_next_boundary, lemma_prefix_is_take, range_on_boundaries,
};
use crate::style::{Style, StyleMap, StyleSet};

verus! {

/// A half-open range of byte offsets into a buffer.
#[derive(Clone, Copy, Debug)]
pub struct Span {
    pub start: usize,
    pub end: usize,
}

/// Why an index or an offset was refused.
#[derive(Clone, Copy, Debug, PartialEq, Eq, Structural)]
pub enum BoundsError {
    /// A cursor was to start at an index that is not the index of a
    /// character of the run.
    InvalidIndex,
    /// The position would lie before the start.
    BeforeStart,
    /// The position would lie beyond the end.
    BeyondEnd,
    /// The byte offset would fall inside the encoding of a character.
    NotCharBoundary,
}

/// The formatting of a run as a mathematical value: absent, or a map from
/// kind to optional payload.
pub type StyleModel = Option<Map<Style, Option<Seq<char>>>>;

/// The mathematical value of an optional shared style map.
pub open spec fn shared_styles_view(s: Option<Arc<StyleMap>>) -> StyleModel {
    match s {
        Some(m) => Some((*m)@),
        None => None,
    }
}

/// What `remove_styles` leaves of a run's formatting: nothing is attached
/// where nothing was; else the entries whose kind is not in `set`.
pub open spec fn styles_removed(cur: StyleModel, set: Set<Style>) -> StyleModel {
    match cur {
        Some(m) => Some(m.remove_keys(set)),
        None => None,
    }
}

/// What `extend_styles` makes of a run's formatting: the incoming map where
/// nothing was attached; else the old entries overridden by the incoming.
pub open spec fn styles_extended(cur: StyleModel, incoming: Map<Style, Option<Seq<char>>>) -> StyleModel {
    match cur {
        Some(m) => Some(m.union_prefer_right(incoming)),
        None => Some(incoming),
    }
}

/// `Arc::clone`: a second handle to the same shared allocation. The value
/// behind the new handle is the value behind the old one.
#[verifier::external_body]
fn share<T>(a: &Arc<T>) -> (r: Arc<T>)
    ensures
        r == *a,
{
    Arc::clone(a)
}

/// `==` of `str`: true exactly when the two slices hold the same characters.
#[verifier::external_body]
fn same_text(a: &str, b: &str) -> (r: bool)
    ensures
        r == (a@ == b@),
{
    a == b
}

/// A run of text: a handle to a shared buffer, an optional byte range into it
/// (none means the whole buffer), and an optional shared style map (none
/// means that no formatting is recorded).
///
/// The range always lies on character boundaries of the buffer. Two runs are
/// equal when their visible text is, whatever their buffers, ranges or styles.
#[derive(Debug)]
pub struct DocString {
    buffer: Arc<String>,
    range: Option<Span>,
    styles: Option<Arc<StyleMap>>,
}

impl View for DocString {
    type V = Seq<char>;

    /// The visible text: the buffer's bytes within the range, decoded.
    open spec fn view(&self) -> Seq<char> {
        decode_utf8(self.buffer_bytes().subrange(self.byte_start(), self.byte_end()))
    }
}

impl DocString {
    /// The whole text of the backing buffer.
    pub closed spec fn buffer_text(&self) -> Seq<char> {
        (*self.buffer)@
    }

    /// The backing buffer as bytes.
    pub open spec fn buffer_bytes(&self) -> Seq<u8> {
        encode_utf8(self.buffer_text())
    }

    /// Whether the run has no range of its own and shows the whole buffer.
    pub closed spec fn is_whole(&self) -> bool {
        self.range is None
    }

    /// The byte offset in the buffer at which the visible text begins.
    pub closed spec fn byte_start(&self) -> int {
        match self.range {
            Some(span) => span.start as int,
            None => 0,
        }
    }

    /// The byte offset in the buffer at which the visible text ends.
    pub closed spec fn byte_end(&self) -> int {
        match self.range {
            Some(span) => span.end as int,
            None => self.buffer_bytes().len() as int,
        }
    }

    /// The attached formatting.
    pub closed spec fn styles_view(&self) -> StyleModel {
        shared_styles_view(self.styles)
    }

    #[verifier::type_invariant]
    spec fn on_boundaries(&self) -> bool {
        range_on_boundaries(self.buffer_bytes(), self.byte_start(), self.byte_end())
    }

    /// A run that shows all of `input`, with no formatting recorded.
    pub fn from_string(input: String) -> (r: DocString)
        ensures
            r@ == input@,
            r.styles_view() is None,
            r.is_whole(),
            r.buffer_text() == input@,
    {
        proof {
            lemma_whole(input@);
        }
        DocString { buffer: Arc::new(input), range: None, styles: None }
    }

    /// A run that shows all of `input`, with no formatting recorded.
    pub fn from_str(input: &str) -> (r: DocString)
        ensures
            r@ == input@,
            r.styles_view() is None,
            r.is_whole(),
            r.buffer_text() == input@,
    {
        DocString::from_string(input.to_owned())
    }

    /// A run that shows all of `input`, with `styles` attached.
    pub fn from_string_styled(input: String, styles: StyleMap) -> (r: DocString)
        ensures
            r@ == input@,
            r.styles_view() == Some(styles@),
            r.is_whole(),
            r.buffer_text() == input@,
    {
        proof {
            lemma_whole(input@);
        }
        DocString { buffer: Arc::new(input), range: None, styles: Some(Arc::new(styles)) }
    }

    /// A run that shows all of `input`, with `styles` attached.
    pub fn from_str_styled(input: &str, styles: StyleMap) -> (r: DocString)
        ensures
            r@ == input@,
            r.styles_view() == Some(styles@),
            r.is_whole(),
            r.buffer_text() == input@,
    {
        DocString::from_string_styled(input.to_owned(), styles)
    }

    /// The visible text, as a slice of the buffer.
    pub fn as_str(&self) -> (r: &str)
        ensures
            r@ == self@,
    {
        proof {
            use_type_invariant(self);
            lemma_whole(self.buffer_text());
            encode_utf8_valid_utf8(self.buffer_text());
        }
        let whole: &str = self.buffer.as_str();
        match self.range {
            Some(span) => {
                proof {
                    lemma_boundary_in_prefix(self.buffer_bytes(), span.end as int, span.start as int);
                }
                let (head, _) = whole.split_at(span.end);
                let (_, tail) = head.split_at(span.start);
                proof {
                    assert(tail.spec_bytes() =~= self.buffer_bytes().subrange(
                        span.start as int,
                        span.end as int,
                    ));
                    encode_utf8_decode_utf8(tail@);
                }
                tail
            },
            None => whole,
        }
    }

    /// Another handle to the attached style map, if there is one.
    pub fn styles(&self) -> (r: Option<Arc<StyleMap>>)
        ensures
            shared_styles_view(r) == self.styles_view(),
    {
        match &self.styles {
            Some(m) => Some(share(m)),
            None => None,
        }
    }

    /// Drops from the attached map the entries whose kind is in `styles`.
    /// Where no map is attached, nothing changes; a map that loses all its
    /// entries stays attached, empty.
    pub fn remove_styles(&mut self, styles: &StyleSet)
        ensures
            final(self).styles_view() == styles_removed(old(self).styles_view(), styles@),
            final(self)@ == old(self)@,
            final(self).buffer_text() == old(self).buffer_text(),
            final(self).byte_start() == old(self).byte_start(),
            final(self).byte_end() == old(self).byte_end(),
            final(self).is_whole() == old(self).is_whole(),
    {
        let kept: Option<Arc<StyleMap>> = match &self.styles {
            Some(m) => Some(Arc::new(m.without(styles))),
            None => None,
        };
        proof {
            use_type_invariant(&*self);
        }
        self.styles = kept;
    }

    /// Merges `styles` into the attached map, the incoming entries
    /// overriding. Where no map is attached, `styles` becomes the map.
    pub fn extend_styles(&mut self, styles: &StyleMap)
        ensures
            final(self).styles_view() == styles_extended(old(self).styles_view(), styles@),
            final(self)@ == old(self)@,
            final(self).buffer_text() == old(self).buffer_text(),
            final(self).byte_start() == old(self).byte_start(),
            final(self).byte_end() == old(self).byte_end(),
            final(self).is_whole() == old(self).is_whole(),
    {
        let merged: StyleMap = match &self.styles {
            Some(m) => m.merged(styles),
            None => styles.clone(),
        };
        proof {
            use_type_invariant(&*self);
        }
        self.styles = Some(Arc::new(merged));
    }

    /// Appends `input` to the visible text. The visible text and `input` are
    /// copied into a fresh buffer, which the run then shows whole.
    pub fn push_str(&mut self, input: &str)
        ensures
            final(self)@ == old(self)@ + input@,
            final(self).styles_view() == old(self).styles_view(),
            final(self).is_whole(),
            final(self).buffer_text() == old(self)@ + input@,
    {
        let mut value = self.to_string();
        value.append(input);
        proof {
            lemma_whole(value@);
        }
        let kept: Option<Arc<StyleMap>> = self.styles();
        *self = DocString { buffer: Arc::new(value), range: None, styles: kept };
    }

    /// The byte offset in `s` that follows its first `b` characters; the
    /// length of `s` in bytes where it has fewer than `b`.
    pub fn slice_inner(s: &str, b: usize) -> (r: usize)
        ensures
            r == byte_offset(s@, b as int),
            r <= s.spec_bytes().len(),
            is_char_boundary(s.spec_bytes(), r as int),
    {
        let len: usize = s.as_bytes().len();
        let mut i: usize = 0;
        let mut count: usize = 0;
        let ghost bytes = s.spec_bytes();
        proof {
            encode_utf8_valid_utf8(s@);
            is_char_boundary_start_end_of_seq(bytes);
            assert(bytes.subrange(0, 0) =~= Seq::<u8>::empty());
            reveal_with_fuel(decode_utf8, 1);
            reveal_with_fuel(valid_utf8, 1);
        }
        while count < b && i < len
            invariant
                bytes == encode_utf8(s@),
                valid_utf8(bytes),
                len == bytes.len(),
                i <= len,
                count <= b,
                is_char_boundary(bytes, i as int),
                decode_utf8(bytes.subrange(0, i as int)).len() == count,
            decreases len - i,
        {
            let ghost from = i;
            i = i + 1;
            while i < len && !s.is_char_boundary(i)
                invariant
                    bytes == s.spec_bytes(),
                    len == bytes.len(),
                    from < i <= len,
                    forall|p: int| from < p < i ==> !is_char_boundary(bytes, p),
                decreases len - i,
            {
                i = i + 1;
            }
            proof {
                is_char_boundary_start_end_of_seq(bytes);
                lemma_next_boundary(bytes, from as int, i as int);
            }
            count = count + 1;
        }
        proof {
            lemma_prefix_is_take(s@, i as int, count as int);
            if i == len {
                assert(bytes.subrange(0, i as int) =~= bytes);
                encode_utf8_decode_utf8(s@);
            }
            assert(count == clamp_chars(s@, b as int));
        }
        i
    }

    /// Cuts the run after its first `char_boundary` characters, which must
    /// not be more than it has. Both parts share this run's buffer and
    /// styles; nothing is copied. At 0 the first part is empty, at the run's
    /// length the second.
    pub fn split_at(&self, char_boundary: usize) -> (r: (DocString, DocString))
        requires
            char_boundary <= self@.len(),
        ensures
            r.0@ == self@.take(char_boundary as int),
            r.1@ == self@.skip(char_boundary as int),
            r.0@ + r.1@ == self@,
            r.0@.len() == char_boundary,
            r.0.styles_view() == self.styles_view(),
            r.1.styles_view() == self.styles_view(),
            r.0.buffer_text() == self.buffer_text(),
            r.1.buffer_text() == self.buffer_text(),
            r.0.byte_start() == self.byte_start(),
            r.0.byte_end() == self.byte_start() + byte_offset(self@, char_boundary as int),
            r.1.byte_start() == r.0.byte_end(),
            r.1.byte_end() == self.byte_end(),
    {
        let (start, end) = self.bounds();
        let byte_index: usize = DocString::slice_inner(self.as_str(), char_boundary);
        proof {
            use_type_invariant(self);
            self.lemma_cut(char_boundary as int);
        }
        let left = DocString {
            buffer: share(&self.buffer),
            range: Some(Span { start: start, end: start + byte_index }),
            styles: self.styles(),
        };
        let right = DocString {
            buffer: share(&self.buffer),
            range: Some(Span { start: start + byte_index, end: end }),
            styles: self.styles(),
        };
        proof {
            let k = char_boundary as int;
            assert(self@.take(k) + self@.skip(k) =~= self@);
        }
        (left, right)
    }

    /// As `split_at`, but an index beyond the end of the run is refused.
    pub fn try_split_at(&self, char_boundary: usize) -> (r: Result<(DocString, DocString), BoundsError>)
        ensures
            char_boundary > self@.len() ==> r == Err::<(DocString, DocString), BoundsError>(
                BoundsError::BeyondEnd,
            ),
            char_boundary <= self@.len() ==> {
                &&& r is Ok
                &&& r.unwrap().0@ == self@.take(char_boundary as int)
                &&& r.unwrap().1@ == self@.skip(char_boundary as int)
                &&& r.unwrap().0.styles_view() == self.styles_view()
                &&& r.unwrap().1.styles_view() == self.styles_view()
                &&& r.unwrap().0.buffer_text() == self.buffer_text()
                &&& r.unwrap().1.buffer_text() == self.buffer_text()
                &&& r.unwrap().0.byte_start() == self.byte_start()
                &&& r.unwrap().0.byte_end() == self.byte_start() + byte_offset(
                    self@,
                    char_boundary as int,
                )
                &&& r.unwrap().1.byte_start() == r.unwrap().0.byte_end()
                &&& r.unwrap().1.byte_end() == self.byte_end()
            },
    {
        if char_boundary > self.char_len() {
            Err(BoundsError::BeyondEnd)
        } else {
            Ok(self.split_at(char_boundary))
        }
    }

    /// The byte range of the visible text within the buffer. It lies on
    /// character boundaries.
    pub fn byte_range(&self) -> (r: Span)
        ensures
            r.start == self.byte_start(),
            r.end == self.byte_end(),
            range_on_boundaries(self.buffer_bytes(), r.start as int, r.end as int),
            self.byte_end() - self.byte_start() == encode_utf8(self@).len(),
    {
        proof {
            use_type_invariant(self);
            self.lemma_cut(0);
        }
        match self.range {
            Some(span) => span,
            None => Span { start: 0, end: self.buffer.as_str().as_bytes().len() },
        }
    }

    /// Replaces the byte range of the visible text, without scanning. The
    /// caller has made sure that the new range lies within the buffer and on
    /// its character boundaries.
    pub fn set_byte_range(&mut self, span: Span)
        requires
            range_on_boundaries(old(self).buffer_bytes(), span.start as int, span.end as int),
        ensures
            final(self).byte_start() == span.start,
            final(self).byte_end() == span.end,
            !final(self).is_whole(),
            final(self).buffer_text() == old(self).buffer_text(),
            final(self).styles_view() == old(self).styles_view(),
    {
        self.range = Some(span);
    }

    fn bounds(&self) -> (r: (usize, usize))
        ensures
            r.0 == self.byte_start(),
            r.1 == self.byte_end(),
            range_on_boundaries(self.buffer_bytes(), r.0 as int, r.1 as int),
    {
        let span = self.byte_range();
        (span.start, span.end)
    }

    /// Cutting the visible text after `k` characters cuts the buffer at a
    /// character boundary, and the two byte ranges decode to the two parts.
    proof fn lemma_cut(&self, k: int)
        requires
            self.on_boundaries(),
            0 <= k <= self@.len(),
        ensures
            encode_utf8(self@) == self.buffer_bytes().subrange(self.byte_start(), self.byte_end()),
            0 <= byte_offset(self@, k) <= self.byte_end() - self.byte_start(),
            is_char_boundary(self.buffer_bytes(), self.byte_start() + byte_offset(self@, k)),
            decode_utf8(
                self.buffer_bytes().subrange(self.byte_start(), self.byte_start() + byte_offset(self@, k)),
            ) == self@.take(k),
            decode_utf8(
                self.buffer_bytes().subrange(self.byte_start() + byte_offset(self@, k), self.byte_end()),
            ) == self@.skip(k),
    {
        let bytes = self.buffer_bytes();
        let s = self.byte_start();
        let e = self.byte_end();
        let x = bytes.subrange(s, e);
        encode_utf8_valid_utf8(self.buffer_text());
        lemma_boundary_in_range(bytes, s, e, s);
        decode_utf8_encode_utf8(x);
        lemma_byte_offset_cuts(self@, k);
        let off = byte_offset(self@, k);
        lemma_boundary_in_range(bytes, s, e, s + off);
        assert(bytes.subrange(s, s + off) =~= x.subrange(0, off));
        assert(bytes.subrange(s + off, e) =~= x.subrange(off, x.len() as int));
        encode_utf8_decode_utf8(self@.take(k));
        encode_utf8_decode_utf8(self@.skip(k));
    }

    /// Moves the start of the visible text forward by `add` bytes, without
    /// scanning. The caller has counted the bytes: the new start must not
    /// pass the end and must be a character boundary of the visible text.
    pub fn seek_forward(&mut self, add: usize)
        requires
            add <= encode_utf8(old(self)@).len(),
            is_char_boundary(encode_utf8(old(self)@), add as int),
        ensures
            final(self)@ == decode_utf8(
                encode_utf8(old(self)@).subrange(add as int, encode_utf8(old(self)@).len() as int),
            ),
            old(self)@ == decode_utf8(encode_utf8(old(self)@).subrange(0, add as int)) + final(self)@,
            final(self).byte_start() == old(self).byte_start() + add,
            final(self).byte_end() == old(self).byte_end(),
            final(self).buffer_text() == old(self).buffer_text(),
            final(self).styles_view() == old(self).styles_view(),
    {
        let (start, end) = self.bounds();
        proof {
            use_type_invariant(&*self);
            let bytes = self.buffer_bytes();
            let x = bytes.subrange(start as int, end as int);
            encode_utf8_valid_utf8(self.buffer_text());
            lemma_boundary_in_range(bytes, start as int, end as int, start as int);
            decode_utf8_encode_utf8(x);
            lemma_boundary_in_range(bytes, start as int, end as int, start + add);
            lemma_boundary_in_range(bytes, start + add, end as int, end as int);
            decode_utf8_encode_utf8(bytes.subrange(start + add, end as int));
            assert(bytes.subrange(start + add, end as int) =~= x.subrange(add as int, x.len() as int));
            decode_utf8_split(x, add as int);
        }
        self.range = Some(Span { start: start + add, end: end });
    }

    /// Moves the start of the visible text backward by `sub` bytes, without
    /// scanning. The caller has counted the bytes: the new start must not
    /// pass the start of the buffer and must be one of its character
    /// boundaries.
    pub fn seek_backward(&mut self, sub: usize)
        requires
            sub <= old(self).byte_start(),
            is_char_boundary(old(self).buffer_bytes(), old(self).byte_start() - sub),
        ensures
            final(self).byte_start() == old(self).byte_start() - sub,
            final(self).byte_end() == old(self).byte_end(),
            final(self).buffer_text() == old(self).buffer_text(),
            final(self).styles_view() == old(self).styles_view(),
            final(self)@ == decode_utf8(
                old(self).buffer_bytes().subrange(old(self).byte_start() - sub, old(self).byte_start()),
            ) + old(self)@,
    {
        let (start, end) = self.bounds();
        proof {
            use_type_invariant(&*self);
            let bytes = self.buffer_bytes();
            encode_utf8_valid_utf8(self.buffer_text());
            let y = bytes.subrange(start - sub, end as int);
            lemma_boundary_in_range(bytes, start - sub, end as int, start as int);
            decode_utf8_split(y, sub as int);
            assert(y.subrange(0, sub as int) =~= bytes.subrange(start - sub, start as int));
            assert(y.subrange(sub as int, y.len() as int) =~= bytes.subrange(start as int, end as int));
        }
        self.range = Some(Span { start: start - sub, end: end });
    }

    /// As `seek_forward`, but the offset is looked at first: one beyond the
    /// end of the visible text, or inside a character, is refused and the
    /// run stays as it was.
    pub fn checked_seek_forward(&mut self, add: usize) -> (r: Result<(), BoundsError>)
        ensures
            final(self).byte_end() == old(self).byte_end(),
            final(self).buffer_text() == old(self).buffer_text(),
            final(self).styles_view() == old(self).styles_view(),
            add > encode_utf8(old(self)@).len() ==> r == Err::<(), BoundsError>(BoundsError::BeyondEnd),
            add <= encode_utf8(old(self)@).len() && !is_char_boundary(
                encode_utf8(old(self)@),
                add as int,
            ) ==> r == Err::<(), BoundsError>(BoundsError::NotCharBoundary),
            add <= encode_utf8(old(self)@).len() && is_char_boundary(
                encode_utf8(old(self)@),
                add as int,
            ) ==> r == Ok::<(), BoundsError>(()),
            r is Err ==> final(self)@ == old(self)@ && final(self).byte_start() == old(
                self,
            ).byte_start(),
            r is Ok ==> final(self).byte_start() == old(self).byte_start() + add && final(self)@
                == decode_utf8(
                encode_utf8(old(self)@).subrange(add as int, encode_utf8(old(self)@).len() as int),
            ),
    {
        let visible: &str = self.as_str();
        let within: bool = add <= visible.as_bytes().len();
        let on_boundary: bool = visible.is_char_boundary(add);
        if !within {
            Err(BoundsError::BeyondEnd)
        } else if !on_boundary {
            Err(BoundsError::NotCharBoundary)
        } else {
            self.seek_forward(add);
            Ok(())
        }
    }

    /// As `seek_backward`, but the offset is looked at first: one before the
    /// start of the buffer, or inside a character, is refused and the run
    /// stays as it was.
    pub fn checked_seek_backward(&mut self, sub: usize) -> (r: Result<(), BoundsError>)
        ensures
            final(self).byte_end() == old(self).byte_end(),
            final(self).buffer_text() == old(self).buffer_text(),
            final(self).styles_view() == old(self).styles_view(),
            sub > old(self).byte_start() ==> r == Err::<(), BoundsError>(BoundsError::BeforeStart),
            sub <= old(self).byte_start() && !is_char_boundary(
                old(self).buffer_bytes(),
                old(self).byte_start() - sub,
            ) ==> r == Err::<(), BoundsError>(BoundsError::NotCharBoundary),
            sub <= old(self).byte_start() && is_char_boundary(
                old(self).buffer_bytes(),
                old(self).byte_start() - sub,
            ) ==> r == Ok::<(), BoundsError>(()),
            r is Err ==> final(self)@ == old(self)@ && final(self).byte_start() == old(
                self,
            ).byte_start(),
            r is Ok ==> final(self).byte_start() == old(self).byte_start() - sub && final(self)@
                == decode_utf8(
                old(self).buffer_bytes().subrange(old(self).byte_start() - sub, old(self).byte_start()),
            ) + old(self)@,
    {
        let (start, _) = self.bounds();
        if sub > start {
            Err(BoundsError::BeforeStart)
        } else if !self.buffer.as_str().is_char_boundary(start - sub) {
            Err(BoundsError::NotCharBoundary)
        } else {
            self.seek_backward(sub);
            Ok(())
        }
    }

    /// A copy of the visible text.
    pub fn to_string(&self) -> (r: String)
        ensures
            r@ == self@,
    {
        self.as_str().to_owned()
    }

    /// Whether the visible text has no character.
    pub fn is_empty(&self) -> (r: bool)
        ensures
            r == (self@.len() == 0),
    {
        self.as_str().is_empty()
    }

    /// The visible text, as an owned string.
    pub fn into_string(self) -> (r: String)
        ensures
            r@ == self@,
    {
        self.to_string()
    }

    /// The number of characters (not bytes) of the visible text.
    pub fn char_len(&self) -> (r: usize)
        ensures
            r == self@.len(),
    {
        self.as_str().unicode_len()
    }
}

/// A buffer's whole byte range lies on character boundaries and decodes to
/// the buffer's text.
pub proof fn lemma_whole(text: Seq<char>)
    ensures
        range_on_boundaries(encode_utf8(text), 0, encode_utf8(text).len() as int),
        decode_utf8(encode_utf8(text).subrange(0, encode_utf8(text).len() as int)) == text,
{
    let bytes = encode_utf8(text);
    encode_utf8_valid_utf8(text);
    encode_utf8_decode_utf8(text);
    is_char_boundary_start_end_of_seq(bytes);
    assert(bytes.subrange(0, bytes.len() as int) =~= bytes);
}

/// Extending with the same map twice gives what extending once gives.
pub proof fn lemma_extend_twice(cur: StyleModel, incoming: Map<Style, Option<Seq<char>>>)
    ensures
        styles_extended(styles_extended(cur, incoming), incoming) == styles_extended(cur, incoming),
{
    let once = styles_extended(cur, incoming).unwrap();
    assert(once.union_prefer_right(incoming) =~= once);
}

/// Removing a set of kinds from an attached map and then extending with the
/// entries that were removed gives back the map.
pub proof fn lemma_remove_then_extend(attached: Map<Style, Option<Seq<char>>>, set: Set<Style>)
    ensures
        styles_extended(styles_removed(Some(attached), set), attached.restrict(set)) == Some(attached),
{
    assert(attached.remove_keys(set).union_prefer_right(attached.restrict(set)) =~= attached);
}

impl Clone for DocString {
    /// Another handle to the same buffer and styles, with the same range.
    fn clone(&self) -> (r: DocString)
        ensures
            r == *self,
    {
        proof {
            use_type_invariant(self);
        }
        let styles: Option<Arc<StyleMap>> = match &self.styles {
            Some(m) => Some(share(m)),
            None => None,
        };
        DocString { buffer: share(&self.buffer), range: self.range, styles: styles }
    }
}

impl PartialEq for DocString {
    fn eq(&self, other: &DocString) -> (r: bool) {
        same_text(self.as_str(), other.as_str())
    }
}

impl PartialEqSpecImpl for DocString {
    open spec fn obeys_eq_spec() -> bool {
        true
    }

    open spec fn eq_spec(&self, other: &DocString) -> bool {
        self@ == other@
    }
}

impl Eq for DocString {

}

} // verus!
