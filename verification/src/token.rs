//! The tokens of a dump, as a reader of XML hands them on.

use vstd::prelude::*;
use crate::text::{chars_of, ends_with};

verus! {

/// One attribute of an element. The value is as written in the document,
/// with its entity references unresolved.
#[derive(Debug, Clone, PartialEq, Eq)]
pub struct Attribute {
    pub key: String,
    pub value: String,
}

/// A structural token. Names are element names; text is as written in the
/// document, with its entity references unresolved.
#[derive(Debug, Clone, PartialEq, Eq)]
pub enum Token {
    StartTag(String),
    EndTag(String),
    EmptyTag(String, Vec<Attribute>),
    Text(String),
    EndOfStream,
}

/// A token with the byte offset in the document at which it ends.
#[derive(Debug, Clone, PartialEq, Eq)]
pub struct Event {
    pub token: Token,
    pub offset: u64,
}

/// What a token holds.
pub enum TokenView {
    StartTag(Seq<char>),
    EndTag(Seq<char>),
    EmptyTag(Seq<char>, Seq<(Seq<char>, Seq<char>)>),
    Text(Seq<char>),
    EndOfStream,
}

/// What an event holds.
pub struct EventView {
    pub token: TokenView,
    pub offset: u64,
}

impl View for Attribute {
    type V = (Seq<char>, Seq<char>);

    open spec fn view(&self) -> (Seq<char>, Seq<char>) {
        (self.key@, self.value@)
    }
}

/// The attributes as pairs of key and value.
pub open spec fn attribute_views(attributes: Seq<Attribute>) -> Seq<(Seq<char>, Seq<char>)> {
    attributes.map_values(|a: Attribute| a@)
}

impl View for Token {
    type V = TokenView;

    open spec fn view(&self) -> TokenView {
        match self {
            Token::StartTag(name) => TokenView::StartTag(name@),
            Token::EndTag(name) => TokenView::EndTag(name@),
            Token::EmptyTag(name, attributes) => TokenView::EmptyTag(
                name@,
                attribute_views(attributes@),
            ),
            Token::Text(content) => TokenView::Text(content@),
            Token::EndOfStream => TokenView::EndOfStream,
        }
    }
}

impl View for Event {
    type V = EventView;

    open spec fn view(&self) -> EventView {
        EventView { token: self.token@, offset: self.offset }
    }
}

/// The events as what they hold.
pub open spec fn event_views(events: Seq<Event>) -> Seq<EventView> {
    events.map_values(|e: Event| e@)
}

/// What is collected for each page.
#[derive(Debug, Clone, Copy, PartialEq, Eq, Structural)]
pub enum Mode {
    /// The links in the text of each page.
    Articles,
    /// The names of those who edited each page.
    Revisions,
}

/// The part that an element plays in a page.
#[derive(Debug, Clone, Copy, PartialEq, Eq, Structural)]
pub enum Tag {
    Page,
    Title,
    Payload,
    Redirect,
    Other,
}

/// The name of the element that holds what `mode` collects.
pub open spec fn payload_name(mode: Mode) -> Seq<char> {
    match mode {
        Mode::Articles => "text"@,
        Mode::Revisions => "username"@,
    }
}

/// The part that the element `name` plays. An element is known by the end of
/// its name, so that a prefix in front of it does no harm; where several
/// ends fit, the first in the order of `Tag` counts.
pub open spec fn tag_of(mode: Mode, name: Seq<char>) -> Tag {
    if "page"@.is_suffix_of(name) {
        Tag::Page
    } else if "title"@.is_suffix_of(name) {
        Tag::Title
    } else if payload_name(mode).is_suffix_of(name) {
        Tag::Payload
    } else if "redirect"@.is_suffix_of(name) {
        Tag::Redirect
    } else {
        Tag::Other
    }
}

/// The part that the element `name` plays.
pub fn classify(mode: Mode, name: &str) -> (tag: Tag)
    ensures
        tag == tag_of(mode, name@),
{
    let chars = chars_of(name);
    let payload = match mode {
        Mode::Articles => chars_of("text"),
        Mode::Revisions => chars_of("username"),
    };
    if ends_with(&chars, &chars_of("page")) {
        Tag::Page
    } else if ends_with(&chars, &chars_of("title")) {
        Tag::Title
    } else if ends_with(&chars, &payload) {
        Tag::Payload
    } else if ends_with(&chars, &chars_of("redirect")) {
        Tag::Redirect
    } else {
        Tag::Other
    }
}

/// The value of the first attribute with the key `key`.
pub open spec fn attribute_of(attributes: Seq<(Seq<char>, Seq<char>)>, key: Seq<char>) -> Option<
    Seq<char>,
>
    decreases attributes.len(),
{
    if attributes.len() == 0 {
        None
    } else if attributes[0].0 == key {
        Some(attributes[0].1)
    } else {
        attribute_of(attributes.drop_first(), key)
    }
}

/// The value of the first attribute with the key `key`.
pub fn find_attribute<'a>(attributes: &'a Vec<Attribute>, key: &String) -> (value: Option<
    &'a String,
>)
    ensures
        match value {
            Some(v) => attribute_of(attribute_views(attributes@), key@) == Some(v@),
            None => attribute_of(attribute_views(attributes@), key@) is None,
        },
{
    let ghost all = attribute_views(attributes@);
    let mut i: usize = 0;
    assert(all.skip(0) =~= all);
    while i < attributes.len()
        invariant
            i <= attributes.len(),
            all == attribute_views(attributes@),
            attribute_of(all, key@) == attribute_of(all.skip(i as int), key@),
        decreases attributes.len() - i,
    {
        assert(all.skip(i as int)[0] == attributes@[i as int]@);
        assert(all.skip(i as int).drop_first() =~= all.skip(i + 1));
        if attributes[i].key == *key {
            return Some(&attributes[i].value);
        }
        i += 1;
    }
    None
}

} // verus!
