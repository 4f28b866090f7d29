//! A numbered line: its 1-based position in the source it came from and its
//! content.
use crate::text::{numbered_text, render_numbered};
use vstd::prelude::*;

verus! {

/// One line of a source, with the position it had in that source.
///
/// The position is given once, when the record is made, and is never
/// renumbered: a record that survives filtering or merging keeps it.
#[derive(Debug, Clone, Copy, PartialEq)]
pub struct LineItem<T> {
    line_number: usize,
    line_contents: T,
}

/// A line whose content is an owned string.
pub type Line = LineItem<String>;

impl<T> LineItem<T> {
    /// The record at position `line_number` holding `line_contents`.
    pub closed spec fn record(line_number: usize, line_contents: T) -> Self {
        LineItem { line_number, line_contents }
    }

    /// A record reads back the position and content it was made with.
    pub broadcast proof fn lemma_record_fields(line_number: usize, line_contents: T)
        ensures
            #![trigger Self::record(line_number, line_contents)]
            Self::record(line_number, line_contents).number() == line_number,
            Self::record(line_number, line_contents).contents() == line_contents,
    {
    }

    /// The record's position in its source.
    pub closed spec fn number(&self) -> usize {
        self.line_number
    }

    /// The record's content.
    pub closed spec fn contents(&self) -> T {
        self.line_contents
    }

    pub fn new(line_number: usize, line_contents: T) -> (r: Self)
        ensures
            r == Self::record(line_number, line_contents),
            r.number() == line_number,
            r.contents() == line_contents,
    {
        LineItem { line_number, line_contents }
    }

    pub fn line_number(&self) -> (r: usize)
        ensures
            r == self.number(),
    {
        self.line_number
    }

    pub fn line_contents(&self) -> (r: &T)
        ensures
            *r == self.contents(),
    {
        &self.line_contents
    }

    /// Gives up the record, handing back its content.
    pub fn into_contents(self) -> (r: T)
        ensures
            r == self.contents(),
    {
        self.line_contents
    }
}

impl LineItem<String> {
    /// The record shown as `"{position}: {content}"`.
    pub fn to_string(&self) -> (r: String)
        ensures
            r@ == numbered_text(self.number() as nat, self.contents()@),
    {
        render_numbered(self.line_number, self.line_contents.as_str())
    }
}

} // verus!
