//! The wire form of a run.
//!
//! A run without styles travels as a plain string, its visible text. A run
//! with styles travels as a sequence of two elements: the visible text, then
//! the style map. A decoder takes either shape.

use std::sync::Arc;
use vstd::prelude::*;
use crate::run::{DocString, StyleModel};
use crate::style::{Style, StyleMap};

verus! {

/// A value on the wire: a string, or a sequence of which the first two
/// elements were read, as far as it had them.
#[derive(Debug)]
pub enum Wire {
    Text(String),
    Sequence(Option<String>, Option<StyleMap>),
}

/// A wire value as a mathematical value.
pub enum WireModel {
    Text(Seq<char>),
    Sequence(Option<Seq<char>>, Option<Map<Style, Option<Seq<char>>>>),
}

impl View for Wire {
    type V = WireModel;

    open spec fn view(&self) -> WireModel {
        match *self {
            Wire::Text(s) => WireModel::Text(s@),
            Wire::Sequence(text, styles) => WireModel::Sequence(
                match text {
                    Some(s) => Some(s@),
                    None => None,
                },
                match styles {
                    Some(m) => Some(m@),
                    None => None,
                },
            ),
        }
    }
}

/// Which element of a sequence was missing.
#[derive(Clone, Copy, Debug, PartialEq, Eq, Structural)]
pub enum DecodeError {
    /// The sequence was empty: no visible text.
    MissingContent,
    /// The sequence held the visible text only: no style map.
    MissingStyles,
}

impl DecodeError {
    /// The position in the sequence of the element that was missing, as the
    /// name of a field.
    pub fn field(&self) -> (r: &'static str)
        ensures
            r@ == (match *self {
                DecodeError::MissingContent => "0"@,
                DecodeError::MissingStyles => "1"@,
            }),
    {
        match self {
            DecodeError::MissingContent => "0",
            DecodeError::MissingStyles => "1",
        }
    }
}

/// The wire form of a run with the given visible text and styles.
pub open spec fn encoded(text: Seq<char>, styles: StyleModel) -> WireModel {
    match styles {
        Some(m) => WireModel::Sequence(Some(text), Some(m)),
        None => WireModel::Text(text),
    }
}

/// The visible text and styles of the run that a wire value stands for, or
/// the element that it lacks.
pub open spec fn decoded(w: WireModel) -> Result<(Seq<char>, StyleModel), DecodeError> {
    match w {
        WireModel::Text(text) => Ok((text, None)),
        WireModel::Sequence(Some(text), Some(m)) => Ok((text, Some(m))),
        WireModel::Sequence(Some(_), None) => Err(DecodeError::MissingStyles),
        WireModel::Sequence(None, _) => Err(DecodeError::MissingContent),
    }
}

/// The wire form of `run`.
pub fn encode(run: &DocString) -> (r: Wire)
    ensures
        r@ == encoded(run@, run.styles_view()),
{
    match run.styles() {
        Some(m) => {
            let styles: &StyleMap = &m;
            Wire::Sequence(Some(run.to_string()), Some(styles.clone()))
        },
        None => Wire::Text(run.to_string()),
    }
}

/// The run that `w` stands for. It shows its whole buffer.
pub fn decode(w: Wire) -> (r: Result<DocString, DecodeError>)
    ensures
        match decoded(w@) {
            Ok((text, styles)) => r is Ok && r.unwrap()@ == text && r.unwrap().styles_view()
                == styles && r.unwrap().is_whole(),
            Err(e) => r == Err::<DocString, DecodeError>(e),
        },
{
    match w {
        Wire::Text(text) => Ok(DocString::from_string(text)),
        Wire::Sequence(Some(text), Some(styles)) => Ok(DocString::from_string_styled(text, styles)),
        Wire::Sequence(Some(_), None) => Err(DecodeError::MissingStyles),
        Wire::Sequence(None, _) => Err(DecodeError::MissingContent),
    }
}

/// Decoding what was encoded gives back the visible text and the styles,
/// whether styles were attached or not.
pub proof fn lemma_round_trip(text: Seq<char>, styles: StyleModel)
    ensures
        decoded(encoded(text, styles)) == Ok::<(Seq<char>, StyleModel), DecodeError>((text, styles)),
{
}

} // verus!
