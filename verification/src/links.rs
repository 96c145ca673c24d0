//! Wiki links in page text.
//!
//! A link is written `[[target]]` or `[[target|display]]`. The target is one
//! or more characters, none of them a square bracket or a bar; the display
//! text is any run of characters without square brackets. Text is read from
//! left to right: where a link starts, its target is taken and reading goes
//! on behind its closing brackets; where none starts, reading moves on by one
//! character. Brackets that fit no link are passed over.

use vstd::prelude::*;
use crate::text::{chars_of, string_of, texts};

verus! {

/// Whether `c` may stand in the target of a link.
pub open spec fn is_target_char(c: char) -> bool {
    c != '[' && c != ']' && c != '|'
}

/// Whether `c` may stand in the display text of a link.
pub open spec fn is_display_char(c: char) -> bool {
    c != '[' && c != ']'
}

/// Whether `text[start..end]` is a link whose target is `text[start + 2..bar]`.
///
/// `bar` is where the target ends: at the bar in front of the display text,
/// or at the closing brackets where there is no display text.
pub open spec fn is_link(text: Seq<char>, start: int, bar: int, end: int) -> bool {
    &&& 0 <= start
    &&& start + 2 < bar <= end - 2
    &&& end <= text.len()
    &&& text[start] == '['
    &&& text[start + 1] == '['
    &&& forall|k: int| start + 2 <= k < bar ==> is_target_char(#[trigger] text[k])
    &&& text[end - 2] == ']'
    &&& text[end - 1] == ']'
    &&& bar < end - 2 ==> {
        &&& text[bar] == '|'
        &&& forall|k: int| bar < k < end - 2 ==> is_display_char(#[trigger] text[k])
    }
}

/// Whether a link starts at `start`.
pub open spec fn link_starts(text: Seq<char>, start: int) -> bool {
    exists|bar: int, end: int| is_link(text, start, bar, end)
}

/// Where the link that starts at `start` has its target's end and its own end.
pub open spec fn link_span(text: Seq<char>, start: int) -> (int, int) {
    choose|bar: int, end: int| is_link(text, start, bar, end)
}

/// The targets of the links read from position `i` on, in their order in the
/// text. A target that occurs twice is listed twice.
pub open spec fn links_from(text: Seq<char>, i: int) -> Seq<Seq<char>>
    decreases text.len() - i,
{
    if i < 0 || i >= text.len() {
        Seq::empty()
    } else if link_starts(text, i) {
        let (bar, end) = link_span(text, i);
        seq![text.subrange(i + 2, bar)] + links_from(text, end)
    } else {
        links_from(text, i + 1)
    }
}

/// The targets of all links of `text`.
pub open spec fn links_of(text: Seq<char>) -> Seq<Seq<char>> {
    links_from(text, 0)
}

/// At most one link starts at a position.
pub proof fn lemma_link_unique(text: Seq<char>, start: int, b1: int, e1: int, b2: int, e2: int)
    requires
        is_link(text, start, b1, e1),
        is_link(text, start, b2, e2),
    ensures
        b1 == b2,
        e1 == e2,
{
    if b1 < b2 {
        assert(is_target_char(text[b1]));
    }
    if b2 < b1 {
        assert(is_target_char(text[b2]));
    }
    if e1 < e2 {
        assert(is_display_char(text[e1 - 2]));
    }
    if e2 < e1 {
        assert(is_display_char(text[e2 - 2]));
    }
}

/// Reading a link moves on to its end and yields its target.
pub proof fn lemma_links_from_link(text: Seq<char>, start: int, bar: int, end: int)
    requires
        is_link(text, start, bar, end),
    ensures
        links_from(text, start) == seq![text.subrange(start + 2, bar)] + links_from(text, end),
{
    let (b, e) = link_span(text, start);
    lemma_link_unique(text, start, bar, end, b, e);
}

fn is_target(c: char) -> (r: bool)
    ensures
        r == is_target_char(c),
{
    c != '[' && c != ']' && c != '|'
}

fn is_display(c: char) -> (r: bool)
    ensures
        r == is_display_char(c),
{
    c != '[' && c != ']'
}

/// Looks for a link that starts at `start`.
///
/// Gives the end of its target and its own end, or `None` where no link
/// starts there.
pub fn scan_link(chars: &Vec<char>, start: usize) -> (r: Option<(usize, usize)>)
    ensures
        match r {
            Some((bar, end)) => is_link(chars@, start as int, bar as int, end as int),
            None => !link_starts(chars@, start as int),
        },
{
    let n = chars.len();
    if n < 5 || start > n - 5 {
        return None;
    }
    if chars[start] != '[' || chars[start + 1] != '[' {
        return None;
    }
    let mut bar: usize = start + 2;
    while bar < n && is_target(chars[bar])
        invariant
            start + 2 <= bar <= n,
            n == chars.len(),
            forall|k: int| start + 2 <= k < bar ==> is_target_char(#[trigger] chars@[k]),
        decreases n - bar,
    {
        bar += 1;
    }
    assert forall|b: int, e: int| is_link(chars@, start as int, b, e) implies b == bar by {
        if b < bar {
            assert(is_target_char(chars@[b]));
        }
        if b > bar {
            assert(is_target_char(chars@[bar as int]));
        }
    }
    if bar == start + 2 || bar >= n {
        return None;
    }
    if chars[bar] == ']' {
        if bar + 1 < n && chars[bar + 1] == ']' {
            return Some((bar, bar + 2));
        }
        return None;
    }
    if chars[bar] != '|' {
        return None;
    }
    let mut close: usize = bar + 1;
    while close < n && is_display(chars[close])
        invariant
            bar < close <= n,
            n == chars.len(),
            forall|k: int| bar < k < close ==> is_display_char(#[trigger] chars@[k]),
        decreases n - close,
    {
        close += 1;
    }
    assert forall|e: int| is_link(chars@, start as int, bar as int, e) implies e - 2 == close by {
        if e - 2 < close {
            assert(is_display_char(chars@[e - 2]));
        }
        if e - 2 > close {
            assert(is_display_char(chars@[close as int]));
        }
    }
    if close < n - 1 && chars[close] == ']' && chars[close + 1] == ']' {
        return Some((bar, close + 2));
    }
    None
}

/// The targets of the links in `chars`, in their order of appearance.
pub fn extract_links_from_chars(chars: &Vec<char>) -> (links: Vec<String>)
    ensures
        texts(links@) == links_of(chars@),
{
    let n = chars.len();
    let mut links: Vec<String> = Vec::new();
    let mut i: usize = 0;
    while i < n
        invariant
            i <= n,
            n == chars.len(),
            links_of(chars@) == texts(links@) + links_from(chars@, i as int),
        decreases n - i,
    {
        match scan_link(chars, i) {
            Some((bar, end)) => {
                proof {
                    lemma_links_from_link(chars@, i as int, bar as int, end as int);
                }
                let target = string_of(chars, i + 2, bar);
                let ghost before = links@;
                links.push(target);
                assert(texts(links@) == texts(before) + seq![chars@.subrange(i + 2, bar as int)]);
                i = end;
            },
            None => {
                i += 1;
            },
        }
    }
    links
}

/// The targets of the links in `text`, in their order of appearance.
///
/// Of `[[target|display]]` only the target is kept. A target that is linked
/// twice comes out twice.
pub fn extract_links(text: &str) -> (links: Vec<String>)
    ensures
        texts(links@) == links_of(text@),
{
    let chars = chars_of(text);
    extract_links_from_chars(&chars)
}

} // verus!
