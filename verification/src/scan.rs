//! The page scanner: a state machine that reads tokens and collects, page
//! by page, the redirects and what the mode asks for.
//!
//! A page is counted when it closes with its title known. In the revisions
//! mode a page whose title begins with a reserved prefix is skipped: it
//! leaves no trace and is not counted, so it does not count towards a page
//! limit either.

use vstd::prelude::*;
use crate::assoc::{distinct_keys, lemma_put, lemma_put_entries, put};
use crate::error::DumpError;
use crate::escape::{decode, unescaped};
use crate::links::{extract_links, links_of};
use crate::lists::{
    add_distinct, lemma_add_distinct, lemma_listed_distinct, listed, lists_distinct, push_all,
    TitleLists,
};
use crate::redirect::RedirectMap;
use crate::text::{blank, chars_of, is_blank, starts_with, texts};
use crate::token::{
    attribute_of, attribute_views, classify, event_views, find_attribute, tag_of, Attribute,
    Event, EventView, Mode, Tag, Token, TokenView,
};

verus! {

/// What the scanner knows between two tokens.
pub struct ScanView {
    pub mode: Mode,
    /// Inside a page that is not skipped.
    pub in_page: bool,
    /// Inside a title element.
    pub in_title: bool,
    /// Inside the element that holds what the mode collects.
    pub in_payload: bool,
    /// The open page has declared a redirect.
    pub redirect_seen: bool,
    /// The title of the open page.
    pub title: Option<Seq<char>>,
    /// What was collected from the open page so far.
    pub payload: Seq<Seq<char>>,
    /// How many pages were committed.
    pub pages: nat,
    /// The redirects declared so far.
    pub redirects: Seq<(Seq<char>, Seq<char>)>,
    /// What was committed so far, by title.
    pub entries: Seq<(Seq<char>, Seq<Seq<char>>)>,
}

/// Whether `title` names a user page or a talk page.
pub open spec fn is_reserved(title: Seq<char>) -> bool {
    "User:"@.is_prefix_of(title) || "Talk:"@.is_prefix_of(title)
}

/// The scanner before the first token.
pub open spec fn initial(mode: Mode) -> ScanView {
    ScanView {
        mode,
        in_page: false,
        in_title: false,
        in_payload: false,
        redirect_seen: false,
        title: None,
        payload: Seq::empty(),
        pages: 0,
        redirects: Seq::empty(),
        entries: Seq::empty(),
    }
}

/// After the start of the element `name`. A page starts empty.
pub open spec fn opened(s: ScanView, name: Seq<char>) -> ScanView {
    match tag_of(s.mode, name) {
        Tag::Page => ScanView {
            in_page: true,
            redirect_seen: false,
            title: None,
            payload: Seq::empty(),
            ..s
        },
        Tag::Title => ScanView { in_title: true, ..s },
        Tag::Payload => ScanView { in_payload: true, ..s },
        _ => s,
    }
}

/// After the open page was committed under `title`.
///
/// Articles: the links of the page are appended to those of its title,
/// unless the page is a redirect, which has no links of its own.
/// Revisions: the editors of the page are added to those of its title, each
/// once.
pub open spec fn committed(s: ScanView, title: Seq<char>) -> ScanView {
    ScanView {
        in_page: false,
        redirect_seen: false,
        title: None,
        payload: Seq::empty(),
        pages: s.pages + 1,
        entries: match s.mode {
            Mode::Articles => if s.redirect_seen {
                s.entries
            } else {
                put(s.entries, title, listed(s.entries, title) + s.payload)
            },
            Mode::Revisions => put(
                s.entries,
                title,
                add_distinct(listed(s.entries, title), s.payload),
            ),
        },
        ..s
    }
}

/// After the end of the element `name`. A page that is open must have its
/// title by now.
pub open spec fn closed(s: ScanView, name: Seq<char>, offset: u64) -> Result<ScanView, DumpError> {
    match tag_of(s.mode, name) {
        Tag::Page => if s.in_page {
            match s.title {
                Some(title) => Ok(committed(s, title)),
                None => Err(DumpError::MalformedPage { offset }),
            }
        } else {
            Ok(s)
        },
        Tag::Title => Ok(ScanView { in_title: false, ..s }),
        Tag::Payload => Ok(ScanView { in_payload: false, ..s }),
        _ => Ok(s),
    }
}

/// After the open page, whose title is `title`, declared `target` as its
/// redirect.
pub open spec fn redirected(s: ScanView, title: Seq<char>, target: Seq<char>) -> ScanView {
    ScanView { redirect_seen: true, redirects: put(s.redirects, title, target), ..s }
}

/// Whether an empty element `name` declares a redirect of the open page.
pub open spec fn declares_redirect(s: ScanView, name: Seq<char>) -> bool {
    s.in_page && tag_of(s.mode, name) == Tag::Redirect
}

/// After the empty element `name`. The redirect of a page is the value of
/// the attribute `title` of its redirect element.
pub open spec fn marked(
    s: ScanView,
    name: Seq<char>,
    attributes: Seq<(Seq<char>, Seq<char>)>,
    offset: u64,
) -> Result<ScanView, DumpError> {
    if declares_redirect(s, name) {
        match (s.title, attribute_of(attributes, "title"@)) {
            (Some(title), Some(raw)) => match unescaped(raw) {
                Some(target) => Ok(redirected(s, title, target)),
                None => Err(DumpError::Parse { offset }),
            },
            _ => Err(DumpError::MalformedPage { offset }),
        }
    } else {
        Ok(s)
    }
}

/// Whether text is read in this state: a title or a payload of an open page.
pub open spec fn wants_text(s: ScanView) -> bool {
    s.in_page && (s.in_title || s.in_payload)
}

/// Whether the text `raw` is read in this state. Text that is white space
/// throughout stands between elements and is passed over.
pub open spec fn reads(s: ScanView, raw: Seq<char>) -> bool {
    wants_text(s) && !is_blank(raw)
}

/// After `text` was read. In a title it is the title of the page, or, in the
/// revisions mode and with a reserved prefix, the reason to skip the page.
/// In a payload it adds its links, or itself as an editor, to what the page
/// has collected; a redirect page collects no links.
pub open spec fn read(s: ScanView, text: Seq<char>) -> ScanView {
    if !s.in_page {
        s
    } else if s.in_title {
        if s.mode == Mode::Revisions && is_reserved(text) {
            ScanView { in_page: false, title: None, ..s }
        } else {
            ScanView { title: Some(text), ..s }
        }
    } else if s.in_payload {
        match s.mode {
            Mode::Articles => if s.redirect_seen {
                s
            } else {
                ScanView { payload: s.payload + links_of(text), ..s }
            },
            Mode::Revisions => ScanView { payload: s.payload.push(text), ..s },
        }
    } else {
        s
    }
}

/// After one event.
pub open spec fn stepped(s: ScanView, event: EventView) -> Result<ScanView, DumpError> {
    match event.token {
        TokenView::StartTag(name) => Ok(opened(s, name)),
        TokenView::EndTag(name) => closed(s, name, event.offset),
        TokenView::EmptyTag(name, attributes) => marked(s, name, attributes, event.offset),
        TokenView::Text(raw) => if reads(s, raw) {
            match unescaped(raw) {
                Some(text) => Ok(read(s, text)),
                None => Err(DumpError::Parse { offset: event.offset }),
            }
        } else {
            Ok(s)
        },
        TokenView::EndOfStream => Ok(s),
    }
}

/// Whether as many pages were committed as `limit` allows.
pub open spec fn limit_reached(s: ScanView, limit: Option<usize>) -> bool {
    match limit {
        Some(n) => s.pages >= n,
        None => false,
    }
}

/// After the events were read one by one, up to the end of the stream, the
/// page limit or the first error.
pub open spec fn scanned(s: ScanView, events: Seq<EventView>, limit: Option<usize>) -> Result<
    ScanView,
    DumpError,
>
    decreases events.len(),
{
    if events.len() == 0 || limit_reached(s, limit) || events[0].token is EndOfStream {
        Ok(s)
    } else {
        match stepped(s, events[0]) {
            Ok(next) => scanned(next, events.drop_first(), limit),
            Err(e) => Err(e),
        }
    }
}

/// One event commits at most one page.
pub proof fn lemma_step_pages(s: ScanView, event: EventView)
    ensures
        stepped(s, event) matches Ok(next) ==> s.pages <= next.pages <= s.pages + 1,
{
}

/// Whether `event` is the start of a page.
pub open spec fn starts_page(mode: Mode, event: EventView) -> bool {
    event.token matches TokenView::StartTag(name) && tag_of(mode, name) == Tag::Page
}

/// In the revisions mode a title with a reserved prefix takes the scanner
/// out of the page, and changes neither the tables nor the count.
pub proof fn lemma_reserved_title_skips(s: ScanView, title: Seq<char>)
    requires
        s.mode == Mode::Revisions,
        s.in_page,
        s.in_title,
        is_reserved(title),
    ensures
        !read(s, title).in_page,
        read(s, title).pages == s.pages,
        read(s, title).entries == s.entries,
        read(s, title).redirects == s.redirects,
{
}

/// Outside a page nothing is recorded: no event but the start of a page
/// brings the scanner into one, fails, or changes the tables or the count.
pub proof fn lemma_outside_page(s: ScanView, event: EventView)
    requires
        !s.in_page,
        !starts_page(s.mode, event),
    ensures
        stepped(s, event) matches Ok(next) && {
            &&& !next.in_page
            &&& next.mode == s.mode
            &&& next.pages == s.pages
            &&& next.entries == s.entries
            &&& next.redirects == s.redirects
        },
{
}

/// A page that is skipped leaves no trace: from a state outside a page, the
/// events up to the next start of a page change neither the tables nor the
/// count of pages.
pub proof fn lemma_skipped_page(s: ScanView, events: Seq<EventView>, limit: Option<usize>)
    requires
        !s.in_page,
        forall|i: int| 0 <= i < events.len() ==> !starts_page(s.mode, #[trigger] events[i]),
    ensures
        scanned(s, events, limit) matches Ok(end) && {
            &&& end.pages == s.pages
            &&& end.entries == s.entries
            &&& end.redirects == s.redirects
        },
    decreases events.len(),
{
    if !(events.len() == 0 || limit_reached(s, limit) || events[0].token is EndOfStream) {
        lemma_outside_page(s, events[0]);
        let next = stepped(s, events[0]).unwrap();
        assert forall|i: int| 0 <= i < events.drop_first().len() implies !starts_page(
            next.mode,
            #[trigger] events.drop_first()[i],
        ) by {
            assert(events.drop_first()[i] == events[i + 1]);
        }
        lemma_skipped_page(next, events.drop_first(), limit);
    }
}

/// In the revisions mode a page with a reserved title leaves no trace,
/// whatever state it is met in: from the start of the page up to the start
/// of the next one, the tables and the count of pages stay as they were.
pub proof fn lemma_reserved_page(
    s: ScanView,
    page: EventView,
    title: EventView,
    text: EventView,
    rest: Seq<EventView>,
    limit: Option<usize>,
)
    requires
        s.mode == Mode::Revisions,
        starts_page(s.mode, page),
        title.token matches TokenView::StartTag(name) && tag_of(s.mode, name) == Tag::Title,
        text.token matches TokenView::Text(raw) && {
            &&& !is_blank(raw)
            &&& unescaped(raw) matches Some(t) && is_reserved(t)
        },
        forall|i: int| 0 <= i < rest.len() ==> !starts_page(s.mode, #[trigger] rest[i]),
    ensures
        scanned(s, seq![page, title, text] + rest, limit) matches Ok(end) && {
            &&& end.pages == s.pages
            &&& end.entries == s.entries
            &&& end.redirects == s.redirects
        },
{
    let events = seq![page, title, text] + rest;
    let after_page = events.drop_first();
    let after_title = after_page.drop_first();
    assert(events[0] == page);
    assert(after_page[0] == title);
    assert(after_title[0] == text);
    assert(after_title.drop_first() =~= rest);
    let s1 = stepped(s, page).unwrap();
    let s2 = stepped(s1, title).unwrap();
    let s3 = stepped(s2, text).unwrap();
    assert(s3.pages == s.pages && s3.entries == s.entries && s3.redirects == s.redirects);
    assert(!s3.in_page);
    lemma_skipped_page(s3, rest, limit);
    assert(scanned(s2, after_title, limit) matches Ok(end) && end.pages == s.pages && end.entries
        == s.entries && end.redirects == s.redirects);
    assert(scanned(s1, after_page, limit) matches Ok(end) && end.pages == s.pages && end.entries
        == s.entries && end.redirects == s.redirects);
}

/// In the revisions mode a page is committed with each of its editors once:
/// under its title stand those who stood there before and those who were
/// read from the page, and nobody twice.
pub proof fn lemma_commit_editors(s: ScanView, title: Seq<char>)
    requires
        s.mode == Mode::Revisions,
        distinct_keys(s.entries),
        lists_distinct(s.entries),
    ensures
        distinct_keys(committed(s, title).entries),
        lists_distinct(committed(s, title).entries),
        listed(committed(s, title).entries, title).no_duplicates(),
        forall|name: Seq<char>|
            listed(committed(s, title).entries, title).contains(name) <==> listed(
                s.entries,
                title,
            ).contains(name) || s.payload.contains(name),
{
    let before = listed(s.entries, title);
    let list = add_distinct(before, s.payload);
    let after = committed(s, title).entries;
    lemma_listed_distinct(s.entries, title);
    lemma_add_distinct(before, s.payload);
    lemma_put(s.entries, title, list);
    lemma_put_entries(s.entries, title, list);
    assert forall|i: int| 0 <= i < after.len() implies (#[trigger] after[i]).1.no_duplicates() by {
        if after[i] != (title, list) {
            assert(after[i] == s.entries[i]);
        }
    }
}

/// In the revisions mode no event makes a list of editors hold a name
/// twice.
pub proof fn lemma_step_keeps_editors_distinct(s: ScanView, event: EventView)
    requires
        s.mode == Mode::Revisions,
        distinct_keys(s.entries),
        lists_distinct(s.entries),
    ensures
        stepped(s, event) matches Ok(next) ==> {
            &&& next.mode == Mode::Revisions
            &&& distinct_keys(next.entries)
            &&& lists_distinct(next.entries)
        },
{
    if let TokenView::EndTag(name) = event.token {
        if let Some(title) = s.title {
            lemma_commit_editors(s, title);
        }
    }
}

/// Whether `title` names a user page or a talk page.
pub fn has_reserved_prefix(title: &str) -> (r: bool)
    ensures
        r == is_reserved(title@),
{
    let chars = chars_of(title);
    starts_with(&chars, &chars_of("User:")) || starts_with(&chars, &chars_of("Talk:"))
}

/// The scanner.
pub struct ScanState {
    mode: Mode,
    in_page: bool,
    in_title: bool,
    in_payload: bool,
    redirect_seen: bool,
    title: Option<String>,
    payload: Vec<String>,
    pages: usize,
    redirects: RedirectMap,
    entries: TitleLists,
}

impl View for ScanState {
    type V = ScanView;

    closed spec fn view(&self) -> ScanView {
        ScanView {
            mode: self.mode,
            in_page: self.in_page,
            in_title: self.in_title,
            in_payload: self.in_payload,
            redirect_seen: self.redirect_seen,
            title: match self.title {
                Some(t) => Some(t@),
                None => None,
            },
            payload: texts(self.payload@),
            pages: self.pages as nat,
            redirects: self.redirects@,
            entries: self.entries@,
        }
    }
}

impl ScanState {
    /// The tables are in order.
    pub closed spec fn wf(&self) -> bool {
        self.redirects.wf() && self.entries.wf()
    }

    /// A scanner that has read nothing.
    pub fn new(mode: Mode) -> (state: ScanState)
        ensures
            state.wf(),
            state@ == initial(mode),
    {
        let state = ScanState {
            mode,
            in_page: false,
            in_title: false,
            in_payload: false,
            redirect_seen: false,
            title: None,
            payload: Vec::new(),
            pages: 0,
            redirects: RedirectMap::new(),
            entries: TitleLists::new(),
        };
        assert(texts(state.payload@) =~= Seq::<Seq<char>>::empty());
        state
    }

    /// How many pages were committed.
    pub fn pages(&self) -> (n: usize)
        ensures
            n == self@.pages,
    {
        self.pages
    }

    /// The redirects declared so far.
    pub fn redirects(&self) -> (redirects: &RedirectMap)
        requires
            self.wf(),
        ensures
            redirects.wf(),
            redirects@ == self@.redirects,
    {
        &self.redirects
    }

    /// What was committed so far, by title.
    pub fn entries(&self) -> (entries: &TitleLists)
        requires
            self.wf(),
        ensures
            entries.wf(),
            entries@ == self@.entries,
    {
        &self.entries
    }

    /// Gives up the scanner for the tables that it has filled.
    pub fn into_tables(self) -> (tables: (RedirectMap, TitleLists))
        requires
            self.wf(),
        ensures
            tables.0.wf(),
            tables.1.wf(),
            tables.0@ == self@.redirects,
            tables.1@ == self@.entries,
    {
        (self.redirects, self.entries)
    }

    /// Reads the start of the element `name`.
    pub fn open(&mut self, name: &str)
        ensures
            final(self).wf() == old(self).wf(),
            final(self)@ == opened(old(self)@, name@),
    {
        match classify(self.mode, name) {
            Tag::Page => {
                self.in_page = true;
                self.redirect_seen = false;
                self.title = None;
                self.payload = Vec::new();
                assert(texts(self.payload@) =~= Seq::<Seq<char>>::empty());
            },
            Tag::Title => {
                self.in_title = true;
            },
            Tag::Payload => {
                self.in_payload = true;
            },
            _ => {},
        }
    }

    /// Reads the end of the element `name`, which ends at byte `offset`.
    pub fn close(&mut self, name: &str, offset: u64) -> (r: Result<(), DumpError>)
        requires
            old(self).wf(),
            old(self)@.pages < usize::MAX,
        ensures
            final(self).wf(),
            match closed(old(self)@, name@, offset) {
                Ok(next) => r is Ok && final(self)@ == next,
                Err(e) => r == Err::<(), DumpError>(e) && final(self)@ == old(self)@,
            },
    {
        match classify(self.mode, name) {
            Tag::Page => {
                if self.in_page {
                    if self.title.is_none() {
                        return Err(DumpError::MalformedPage { offset });
                    }
                    let title = self.title.take().unwrap();
                    let mut payload: Vec<String> = Vec::new();
                    std::mem::swap(&mut self.payload, &mut payload);
                    assert(texts(self.payload@) =~= Seq::<Seq<char>>::empty());
                    match self.mode {
                        Mode::Articles => {
                            if !self.redirect_seen {
                                self.entries.extend(title, &payload);
                            }
                        },
                        Mode::Revisions => {
                            self.entries.extend_distinct(title, &payload);
                        },
                    }
                    self.in_page = false;
                    self.redirect_seen = false;
                    self.pages = self.pages + 1;
                }
            },
            Tag::Title => {
                self.in_title = false;
            },
            Tag::Payload => {
                self.in_payload = false;
            },
            _ => {},
        }
        Ok(())
    }

    /// Records that the open page redirects to `target`.
    pub fn redirect_to(&mut self, target: String, offset: u64) -> (r: Result<(), DumpError>)
        requires
            old(self).wf(),
        ensures
            final(self).wf(),
            match old(self)@.title {
                Some(title) => r is Ok && final(self)@ == redirected(old(self)@, title, target@),
                None => {
                    &&& r == Err::<(), DumpError>(DumpError::MalformedPage { offset })
                    &&& final(self)@ == old(self)@
                },
            },
    {
        match &self.title {
            Some(title) => {
                self.redirects.record(title.clone(), target);
                self.redirect_seen = true;
                Ok(())
            },
            None => Err(DumpError::MalformedPage { offset }),
        }
    }

    /// Reads the empty element `name`, which ends at byte `offset`.
    pub fn mark(&mut self, name: &str, attributes: &Vec<Attribute>, offset: u64) -> (r: Result<
        (),
        DumpError,
    >)
        requires
            old(self).wf(),
        ensures
            final(self).wf(),
            match marked(old(self)@, name@, attribute_views(attributes@), offset) {
                Ok(next) => r is Ok && final(self)@ == next,
                Err(e) => r == Err::<(), DumpError>(e) && final(self)@ == old(self)@,
            },
    {
        if !self.in_page {
            return Ok(());
        }
        match classify(self.mode, name) {
            Tag::Redirect => {
                if self.title.is_none() {
                    return Err(DumpError::MalformedPage { offset });
                }
                match find_attribute(attributes, &"title".to_owned()) {
                    Some(raw) => {
                        let target = decode(raw.as_str(), offset)?;
                        self.redirect_to(target, offset)
                    },
                    None => Err(DumpError::MalformedPage { offset }),
                }
            },
            _ => Ok(()),
        }
    }

    /// Reads `text`, in which the entity references are resolved.
    pub fn read(&mut self, text: String)
        ensures
            final(self).wf() == old(self).wf(),
            final(self)@ == read(old(self)@, text@),
    {
        if !self.in_page {
            return ;
        }
        if self.in_title {
            match self.mode {
                Mode::Revisions => {
                    if has_reserved_prefix(text.as_str()) {
                        self.in_page = false;
                        self.title = None;
                    } else {
                        self.title = Some(text);
                    }
                },
                Mode::Articles => {
                    self.title = Some(text);
                },
            }
        } else if self.in_payload {
            match self.mode {
                Mode::Articles => {
                    if !self.redirect_seen {
                        let links = extract_links(text.as_str());
                        push_all(&mut self.payload, &links);
                    }
                },
                Mode::Revisions => {
                    let ghost before = self.payload@;
                    self.payload.push(text);
                    assert(texts(self.payload@) =~= texts(before).push(text@));
                },
            }
        }
    }

    /// Whether text is read in this state.
    pub fn wants_text(&self) -> (r: bool)
        ensures
            r == wants_text(self@),
    {
        self.in_page && (self.in_title || self.in_payload)
    }

    /// Whether as many pages were committed as `limit` allows.
    pub fn limit_reached(&self, limit: Option<usize>) -> (r: bool)
        ensures
            r == limit_reached(self@, limit),
    {
        match limit {
            Some(n) => self.pages >= n,
            None => false,
        }
    }

    /// Reads one event.
    ///
    /// On an error the scanner is as it was.
    pub fn step(&mut self, event: &Event) -> (r: Result<(), DumpError>)
        requires
            old(self).wf(),
            old(self)@.pages < usize::MAX,
        ensures
            final(self).wf(),
            match stepped(old(self)@, event@) {
                Ok(next) => r is Ok && final(self)@ == next,
                Err(e) => r == Err::<(), DumpError>(e) && final(self)@ == old(self)@,
            },
    {
        match &event.token {
            Token::StartTag(name) => {
                self.open(name.as_str());
                Ok(())
            },
            Token::EndTag(name) => self.close(name.as_str(), event.offset),
            Token::EmptyTag(name, attributes) => self.mark(name.as_str(), attributes, event.offset),
            Token::Text(raw) => {
                if self.wants_text() && !blank(raw.as_str()) {
                    let text = decode(raw.as_str(), event.offset)?;
                    self.read(text);
                }
                Ok(())
            },
            Token::EndOfStream => Ok(()),
        }
    }
}

/// Reads `events` from the start: up to the end of the stream, up to the
/// page limit, or up to the first error, which ends the scan.
pub fn scan_events(mode: Mode, events: &Vec<Event>, limit: Option<usize>) -> (r: Result<
    ScanState,
    DumpError,
>)
    ensures
        match scanned(initial(mode), event_views(events@), limit) {
            Ok(end) => r matches Ok(state) && state.wf() && state@ == end,
            Err(e) => r matches Err(err) && err == e,
        },
{
    let ghost all = event_views(events@);
    let mut state = ScanState::new(mode);
    let mut i: usize = 0;
    assert(all.skip(0) =~= all);
    while i < events.len() && !state.limit_reached(limit) && !is_end(&events[i].token)
        invariant
            i <= events.len(),
            all == event_views(events@),
            state.wf(),
            state@.pages <= i,
            scanned(initial(mode), all, limit) == scanned(state@, all.skip(i as int), limit),
        decreases events.len() - i,
    {
        let ghost before = state@;
        assert(all.skip(i as int)[0] == events@[i as int]@);
        assert(all.skip(i as int).drop_first() =~= all.skip(i + 1));
        proof {
            lemma_step_pages(before, events@[i as int]@);
        }
        state.step(&events[i])?;
        i += 1;
    }
    if i < events.len() {
        assert(all.skip(i as int)[0] == events@[i as int]@);
    }
    Ok(state)
}

/// Whether `token` is the end of the stream.
pub fn is_end(token: &Token) -> (r: bool)
    ensures
        r == (token@ is EndOfStream),
{
    match token {
        Token::EndOfStream => true,
        _ => false,
    }
}

} // verus!
