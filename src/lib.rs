//! Converts a small plain-text markup into an HTML document: a single-pass parser builds a
//! tree of element nodes, and each node renders itself to HTML text.
use vstd::prelude::*;

pub mod document;
pub mod element;
pub mod parser;

pub use document::{HtmlBody, HtmlDocument, HtmlHead};
pub use element::{
    Bold, BulletList, Cursive, Element, Heading, HeadingType, HorizontalRule, HtmlElement, Image,
    Link, Monospace, NewLine, NumberedList, Paragraph, Text,
};
pub use parser::Parser;

verus! {

/// Appends `c` to `s`; relies on `String::push`, which appends the given char to the end.
#[verifier::external_body]
pub(crate) fn push_char(s: &mut String, c: char)
    ensures
        final(s)@ == old(s)@.push(c),
{
    s.push(c)
}

} // verus!
