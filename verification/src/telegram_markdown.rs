//! Conversion of CommonMark, as Codex writes it, into Telegram's MarkdownV2.
//!
//! The CommonMark parser is pulldown-cmark; its event stream is carried into
//! the library as [`MdEvent`] values and rendered by a verified state machine
//! whose every step is stated by [`step`].

use pulldown_cmark::{Event as E, Tag as T, TagEnd as TE};
use vstd::prelude::*;

use crate::text::{
    decimal, extend_chars, push_decimal, string_of, strip_both, strip_chars, chars_of,
};

verus! {

/// The opening tags of the CommonMark event stream that the renderer tells apart.
pub enum MdTag {
    Paragraph,
    Heading,
    BlockQuote,
    CodeBlock,
    /// A list; `Some(n)` for an ordered list starting at `n`.
    List(Option<u64>),
    Item,
    Emphasis,
    Strong,
    Strikethrough,
    /// A link with its destination.
    Link(String),
    /// An image with its destination.
    Image(String),
    Table,
    TableRow,
    TableCell,
    /// Any other tag (HTML block, table head, footnote definition, ...).
    Other,
}

/// The closing tags of the CommonMark event stream that the renderer tells apart.
pub enum MdTagEnd {
    Paragraph,
    Heading,
    BlockQuote,
    CodeBlock,
    List,
    Item,
    Emphasis,
    Strong,
    Strikethrough,
    Link,
    Image,
    Table,
    TableRow,
    Other,
}

/// One event of the CommonMark event stream.
pub enum MdEvent {
    Start(MdTag),
    End(MdTagEnd),
    Text(String),
    Code(String),
    /// Block or inline HTML.
    Html(String),
    FootnoteReference(String),
    /// A soft or hard line break.
    LineBreak,
    Rule,
    TaskListMarker(bool),
    Other,
}

/// pulldown-cmark's event type, carried opaquely into the conversion below.
#[verifier::external_type_specification]
#[verifier::external_body]
pub struct ExCmEvent<'a>(E<'a>);

/// pulldown-cmark's opening-tag type.
#[verifier::external_type_specification]
#[verifier::external_body]
pub struct ExCmTag<'a>(T<'a>);

/// pulldown-cmark's closing-tag type.
#[verifier::external_type_specification]
#[verifier::external_body]
pub struct ExCmTagEnd(TE);

/// The events that pulldown-cmark produces for `text` with strikethrough and
/// tables enabled.
pub uninterp spec fn commonmark_events(text: Seq<char>) -> Seq<MdEvent>;

/// Calls `pulldown_cmark::Parser::new_ext` with `ENABLE_STRIKETHROUGH` and
/// `ENABLE_TABLES` and collects the events, each converted to an [`MdEvent`].
/// Claimed: the result is `commonmark_events(text@)`, a function of the text alone.
#[verifier::external_body]
fn parse_commonmark(text: &str) -> (res: Vec<MdEvent>)
    ensures
        res@ == commonmark_events(text@),
{
    let options = pulldown_cmark::Options::ENABLE_STRIKETHROUGH
        | pulldown_cmark::Options::ENABLE_TABLES;
    pulldown_cmark::Parser::new_ext(text, options).map(md_event).collect()
}

/// Converts one `pulldown_cmark::Event`, variant by variant.
#[verifier::external_body]
fn md_event(event: E<'_>) -> MdEvent {
    match event {
        E::Start(tag) => MdEvent::Start(md_tag(tag)),
        E::End(tag) => MdEvent::End(md_tag_end(tag)),
        E::Text(text) => MdEvent::Text(text.into_string()),
        E::Code(code) => MdEvent::Code(code.into_string()),
        E::Html(html) | E::InlineHtml(html) => MdEvent::Html(html.into_string()),
        E::FootnoteReference(label) => MdEvent::FootnoteReference(label.into_string()),
        E::SoftBreak | E::HardBreak => MdEvent::LineBreak,
        E::Rule => MdEvent::Rule,
        E::TaskListMarker(checked) => MdEvent::TaskListMarker(checked),
        _ => MdEvent::Other,
    }
}

/// Converts one `pulldown_cmark::Tag`, variant by variant (block tags here,
/// span tags in [`md_span_tag`]).
#[verifier::external_body]
fn md_tag(tag: T<'_>) -> MdTag {
    match tag {
        T::Paragraph => MdTag::Paragraph,
        T::Heading { .. } => MdTag::Heading,
        T::BlockQuote(_) => MdTag::BlockQuote,
        T::CodeBlock(_) => MdTag::CodeBlock,
        T::List(start) => MdTag::List(start),
        T::Item => MdTag::Item,
        T::Table(_) => MdTag::Table,
        T::TableRow => MdTag::TableRow,
        T::TableCell => MdTag::TableCell,
        other => md_span_tag(other),
    }
}

/// Converts the span tags of `pulldown_cmark::Tag`, variant by variant.
#[verifier::external_body]
fn md_span_tag(tag: T<'_>) -> MdTag {
    match tag {
        T::Emphasis => MdTag::Emphasis,
        T::Strong => MdTag::Strong,
        T::Strikethrough => MdTag::Strikethrough,
        T::Link { dest_url, .. } => MdTag::Link(dest_url.into_string()),
        T::Image { dest_url, .. } => MdTag::Image(dest_url.into_string()),
        _ => MdTag::Other,
    }
}

/// Converts one `pulldown_cmark::TagEnd`, variant by variant (block tags
/// here, span tags in [`md_span_tag_end`]).
#[verifier::external_body]
fn md_tag_end(tag: TE) -> MdTagEnd {
    match tag {
        TE::Paragraph => MdTagEnd::Paragraph,
        TE::Heading(_) => MdTagEnd::Heading,
        TE::BlockQuote(_) => MdTagEnd::BlockQuote,
        TE::CodeBlock => MdTagEnd::CodeBlock,
        TE::List(_) => MdTagEnd::List,
        TE::Item => MdTagEnd::Item,
        TE::Table => MdTagEnd::Table,
        TE::TableRow => MdTagEnd::TableRow,
        other => md_span_tag_end(other),
    }
}

/// Converts the span tags of `pulldown_cmark::TagEnd`, variant by variant.
#[verifier::external_body]
fn md_span_tag_end(tag: TE) -> MdTagEnd {
    match tag {
        TE::Emphasis => MdTagEnd::Emphasis,
        TE::Strong => MdTagEnd::Strong,
        TE::Strikethrough => MdTagEnd::Strikethrough,
        TE::Link => MdTagEnd::Link,
        TE::Image => MdTagEnd::Image,
        _ => MdTagEnd::Other,
    }
}

// ---------------------------------------------------------------------------
// Escaping
// ---------------------------------------------------------------------------

/// Characters that MarkdownV2 reserves in ordinary text.
pub open spec fn text_reserved() -> Seq<char> {
    seq!['\\', '_', '*', '[', ']', '(', ')', '~', '`', '>', '#', '+', '-', '=', '|', '{', '}', '.', '!']
}

/// Characters that MarkdownV2 reserves inside code.
pub open spec fn code_reserved() -> Seq<char> {
    seq!['\\', '`']
}

/// Characters that MarkdownV2 reserves inside a link target.
pub open spec fn link_reserved() -> Seq<char> {
    seq!['\\', ')']
}

/// The escaped form of one character.
pub open spec fn escape_one(c: char, reserved: Seq<char>) -> Seq<char> {
    if reserved.contains(c) {
        seq!['\\', c]
    } else {
        seq![c]
    }
}

/// `s` with a backslash in front of every character of `reserved`.
pub open spec fn escaped(s: Seq<char>, reserved: Seq<char>) -> Seq<char>
    decreases s.len(),
{
    if s.len() == 0 {
        Seq::empty()
    } else {
        escaped(s.drop_last(), reserved) + escape_one(s.last(), reserved)
    }
}

/// `t` reads, from the left, as a series of tokens each of which is either a
/// character outside `reserved` or a backslash followed by a character of
/// `reserved`: no reserved character stands unescaped.
pub open spec fn well_escaped(t: Seq<char>, reserved: Seq<char>) -> bool
    decreases t.len(),
{
    if t.len() == 0 {
        true
    } else if !reserved.contains(t[0]) {
        well_escaped(t.drop_first(), reserved)
    } else {
        t.len() >= 2 && t[0] == '\\' && reserved.contains(t[1]) && well_escaped(
            t.subrange(2, t.len() as int),
            reserved,
        )
    }
}

/// Reading escapes from the left: a backslash and the character after it
/// stand for that character.
pub open spec fn unescaped(t: Seq<char>) -> Seq<char>
    decreases t.len(),
{
    if t.len() == 0 {
        Seq::empty()
    } else if t[0] == '\\' && t.len() >= 2 {
        seq![t[1]] + unescaped(t.subrange(2, t.len() as int))
    } else {
        seq![t[0]] + unescaped(t.drop_first())
    }
}

proof fn lemma_escaped_front(s: Seq<char>, reserved: Seq<char>)
    requires
        s.len() > 0,
    ensures
        escaped(s, reserved) == escape_one(s[0], reserved) + escaped(s.drop_first(), reserved),
    decreases s.len(),
{
    if s.len() == 1 {
        assert(s.drop_last() == Seq::<char>::empty());
        assert(s.drop_first() == Seq::<char>::empty());
        assert(escaped(s.drop_first(), reserved) == Seq::<char>::empty());
        assert(escaped(s, reserved) == escaped(s.drop_last(), reserved) + escape_one(s.last(), reserved));
        assert(escaped(s, reserved) == escape_one(s[0], reserved));
    } else {
        lemma_escaped_front(s.drop_last(), reserved);
        assert(s.drop_last().drop_first() == s.drop_first().drop_last());
        assert(s.drop_first().last() == s.last());
        assert(s.drop_last()[0] == s[0]);
    }
}

/// Law: escaping leaves no reserved character unescaped, and reading the
/// escapes back gives the original text. Holds for the three reserved sets of
/// MarkdownV2, each of which contains the backslash.
pub proof fn lemma_escape_round_trip(s: Seq<char>, reserved: Seq<char>)
    requires
        reserved.contains('\\'),
    ensures
        well_escaped(escaped(s, reserved), reserved),
        unescaped(escaped(s, reserved)) == s,
    decreases s.len(),
{
    if s.len() > 0 {
        lemma_escaped_front(s, reserved);
        lemma_escape_round_trip(s.drop_first(), reserved);
        let rest = escaped(s.drop_first(), reserved);
        let t = escaped(s, reserved);
        if reserved.contains(s[0]) {
            assert(t.subrange(2, t.len() as int) == rest);
            assert(t[0] == '\\');
            assert(t[1] == s[0]);
        } else {
            assert(t.drop_first() == rest);
            assert(t[0] == s[0]);
            assert(s[0] != '\\');
        }
        assert(s == seq![s[0]] + s.drop_first());
    }
}

fn contains_char(set: &[char], c: char) -> (res: bool)
    ensures
        res == set@.contains(c),
{
    let mut i: usize = 0;
    while i < set.len()
        invariant
            i <= set@.len(),
            forall|k: int| 0 <= k < i ==> set@[k] != c,
        decreases set@.len() - i,
    {
        if set[i] == c {
            assert(set@[i as int] == c);
            return true;
        }
        i = i + 1;
    }
    false
}

/// `value` with a backslash in front of each character of `reserved`.
pub fn escape_characters(value: &[char], reserved: &[char]) -> (res: Vec<char>)
    ensures
        res@ == escaped(value@, reserved@),
{
    let mut out: Vec<char> = Vec::new();
    let mut i: usize = 0;
    while i < value.len()
        invariant
            i <= value@.len(),
            out@ == escaped(value@.subrange(0, i as int), reserved@),
        decreases value@.len() - i,
    {
        let c = value[i];
        if contains_char(reserved, c) {
            out.push('\\');
        }
        out.push(c);
        assert(value@.subrange(0, i + 1).drop_last() == value@.subrange(0, i as int));
        i = i + 1;
    }
    assert(value@.subrange(0, value@.len() as int) == value@);
    out
}

fn text_reserved_exec() -> (res: Vec<char>)
    ensures
        res@ == text_reserved(),
{
    let res = vec!['\\', '_', '*', '[', ']', '(', ')', '~', '`', '>', '#', '+', '-', '=', '|', '{', '}', '.', '!'];
    assert(res@ == text_reserved());
    res
}

/// Escapes ordinary text for MarkdownV2.
pub fn escape_text(value: &[char]) -> (res: Vec<char>)
    ensures
        res@ == escaped(value@, text_reserved()),
{
    let reserved = text_reserved_exec();
    escape_characters(value, reserved.as_slice())
}

/// Escapes the content of inline code or a code block.
pub fn escape_code(value: &[char]) -> (res: Vec<char>)
    ensures
        res@ == escaped(value@, code_reserved()),
{
    let reserved = vec!['\\', '`'];
    assert(reserved@ == code_reserved());
    escape_characters(value, reserved.as_slice())
}

/// Escapes a link destination.
pub fn escape_link_target(value: &[char]) -> (res: Vec<char>)
    ensures
        res@ == escaped(value@, link_reserved()),
{
    let reserved = vec!['\\', ')'];
    assert(reserved@ == link_reserved());
    escape_characters(value, reserved.as_slice())
}

} // verus!

verus! {

// ---------------------------------------------------------------------------
// The renderer as a state machine over events
// ---------------------------------------------------------------------------

/// The renderer's state in mathematical form.
pub struct RenderState {
    /// Text written outside block quotes.
    pub output: Seq<char>,
    /// One buffer per open block quote, innermost last.
    pub quotes: Seq<Seq<char>>,
    /// Destinations of the open links and images, innermost last.
    pub links: Seq<Seq<char>>,
    /// Open lists: the next number of an ordered list, or `None`.
    pub lists: Seq<Option<int>>,
    /// For each open strong span, whether it wrote a `*`.
    pub strong: Seq<bool>,
    pub heading: nat,
    pub item: nat,
    pub code: nat,
    /// For each open table row, whether no cell has started yet.
    pub cells: Seq<bool>,
}

pub open spec fn initial_state() -> RenderState {
    RenderState {
        output: Seq::empty(),
        quotes: Seq::empty(),
        links: Seq::empty(),
        lists: Seq::empty(),
        strong: Seq::empty(),
        heading: 0,
        item: 0,
        code: 0,
        cells: Seq::empty(),
    }
}

/// Where text goes: the innermost open quote, else the output.
pub open spec fn target(st: RenderState) -> Seq<char> {
    if st.quotes.len() > 0 {
        st.quotes.last()
    } else {
        st.output
    }
}

pub open spec fn with_target(st: RenderState, t: Seq<char>) -> RenderState {
    if st.quotes.len() > 0 {
        RenderState { quotes: st.quotes.update(st.quotes.len() - 1, t), ..st }
    } else {
        RenderState { output: t, ..st }
    }
}

/// Appends `s` to the target.
pub open spec fn push(st: RenderState, s: Seq<char>) -> RenderState {
    with_target(st, target(st) + s)
}

/// Number of `'\n'` at the end of `s`.
pub open spec fn trailing_newlines(s: Seq<char>) -> nat
    decreases s.len(),
{
    if s.len() > 0 && s.last() == '\n' {
        1 + trailing_newlines(s.drop_last())
    } else {
        0
    }
}

pub open spec fn newlines(n: nat) -> Seq<char> {
    Seq::new(n, |i: int| '\n')
}

/// A non-empty `t` made to end with at least `count` newlines, adding as few as needed.
pub open spec fn with_newlines(t: Seq<char>, count: nat) -> Seq<char> {
    if t.len() == 0 || trailing_newlines(t) >= count {
        t
    } else {
        t + newlines((count - trailing_newlines(t)) as nat)
    }
}

pub open spec fn ensure_newlines(st: RenderState, count: nat) -> RenderState {
    with_target(st, with_newlines(target(st), count))
}

/// A blank line between blocks, a single line break inside list items.
pub open spec fn block_boundary(st: RenderState) -> RenderState {
    ensure_newlines(st, if st.item == 0 { 2 } else { 1 })
}

pub open spec fn opt_int(o: Option<u64>) -> Option<int> {
    match o {
        Some(n) => Some(n as int),
        None => None,
    }
}

/// `"• "`, the bullet of an unordered list item.
pub open spec fn bullet() -> Seq<char> {
    seq!['\u{2022}', ' ']
}

/// `"────────"`, the rendering of a thematic break.
pub open spec fn rule_line() -> Seq<char> {
    Seq::new(8, |i: int| '\u{2500}')
}

/// `" │ "`, between table cells.
pub open spec fn cell_separator() -> Seq<char> {
    seq![' ', '\u{2502}', ' ']
}

pub open spec fn start_item(st: RenderState) -> RenderState {
    let s1 = ensure_newlines(st, 1);
    let s2 = if s1.lists.len() > 0 && s1.lists.last() is Some {
        let n = s1.lists.last()->0;
        push(
            RenderState { lists: s1.lists.update(s1.lists.len() - 1, Some(n + 1)), ..s1 },
            decimal(n as nat) + seq!['\\', '.', ' '],
        )
    } else {
        push(s1, bullet())
    };
    RenderState { item: s2.item + 1, ..s2 }
}

pub open spec fn start_strong(st: RenderState) -> RenderState {
    let emit = st.heading == 0 && !st.strong.contains(true);
    let s1 = RenderState { strong: st.strong.push(emit), ..st };
    if emit {
        push(s1, seq!['*'])
    } else {
        s1
    }
}

pub open spec fn start_cell(st: RenderState) -> RenderState {
    let s1 = if st.cells.len() > 0 && !st.cells.last() {
        push(st, cell_separator())
    } else {
        st
    };
    if s1.cells.len() > 0 {
        RenderState { cells: s1.cells.update(s1.cells.len() - 1, false), ..s1 }
    } else {
        s1
    }
}

pub open spec fn start_link(st: RenderState, dest: Seq<char>) -> RenderState {
    let s1 = push(st, seq!['[']);
    RenderState { links: s1.links.push(dest), ..s1 }
}

/// What an opening tag does.
pub open spec fn start_tag(st: RenderState, tag: MdTag) -> RenderState {
    match tag {
        MdTag::Paragraph => st,
        MdTag::Heading => {
            let s1 = block_boundary(st);
            push(RenderState { heading: s1.heading + 1, ..s1 }, seq!['*'])
        },
        MdTag::BlockQuote => {
            let s1 = block_boundary(st);
            RenderState { quotes: s1.quotes.push(Seq::empty()), ..s1 }
        },
        MdTag::CodeBlock => {
            let s1 = push(block_boundary(st), seq!['`', '`', '`', '\n']);
            RenderState { code: s1.code + 1, ..s1 }
        },
        MdTag::List(start) => {
            let s1 = block_boundary(st);
            RenderState { lists: s1.lists.push(opt_int(start)), ..s1 }
        },
        MdTag::Item => start_item(st),
        MdTag::Emphasis => push(st, seq!['_']),
        MdTag::Strong => start_strong(st),
        MdTag::Strikethrough => push(st, seq!['~']),
        MdTag::Link(dest) => start_link(st, dest@),
        MdTag::Image(dest) => start_link(st, dest@),
        MdTag::Table => block_boundary(st),
        MdTag::TableRow => {
            let s1 = ensure_newlines(st, 1);
            RenderState { cells: s1.cells.push(true), ..s1 }
        },
        MdTag::TableCell => start_cell(st),
        MdTag::Other => st,
    }
}

/// Each line break of `s` followed by `>`.
pub open spec fn quote_breaks(s: Seq<char>) -> Seq<char>
    decreases s.len(),
{
    if s.len() == 0 {
        Seq::empty()
    } else {
        quote_breaks(s.drop_last()) + (if s.last() == '\n' {
            seq!['\n', '>']
        } else {
            seq![s.last()]
        })
    }
}

/// `content` with each line prefixed by `>`, after dropping the line breaks
/// around it.
pub open spec fn quoted(content: Seq<char>) -> Seq<char> {
    seq!['>'] + quote_breaks(strip_both(content, '\n'))
}

pub open spec fn end_block_quote(st: RenderState) -> RenderState {
    if st.quotes.len() == 0 {
        st
    } else {
        let content = st.quotes.last();
        let s1 = RenderState { quotes: st.quotes.drop_last(), ..st };
        ensure_newlines(push(s1, quoted(content)), 2)
    }
}

pub open spec fn end_link(st: RenderState) -> RenderState {
    let dest = if st.links.len() > 0 {
        st.links.last()
    } else {
        Seq::empty()
    };
    let s1 = RenderState { links: if st.links.len() > 0 { st.links.drop_last() } else { st.links }, ..st };
    push(s1, seq![']', '('] + escaped(dest, link_reserved()) + seq![')'])
}

pub open spec fn end_strong(st: RenderState) -> RenderState {
    if st.strong.len() > 0 {
        let s1 = RenderState { strong: st.strong.drop_last(), ..st };
        if st.strong.last() {
            push(s1, seq!['*'])
        } else {
            s1
        }
    } else {
        st
    }
}

pub open spec fn sat_dec(n: nat) -> nat {
    if n == 0 {
        0
    } else {
        (n - 1) as nat
    }
}

/// What a closing tag does.
pub open spec fn end_tag(st: RenderState, tag: MdTagEnd) -> RenderState {
    match tag {
        MdTagEnd::Paragraph => if st.item == 0 {
            ensure_newlines(st, 2)
        } else {
            st
        },
        MdTagEnd::Heading => {
            let s1 = push(st, seq!['*']);
            ensure_newlines(RenderState { heading: sat_dec(s1.heading), ..s1 }, 2)
        },
        MdTagEnd::BlockQuote => end_block_quote(st),
        MdTagEnd::CodeBlock => {
            let s1 = push(ensure_newlines(st, 1), seq!['`', '`', '`']);
            ensure_newlines(RenderState { code: sat_dec(s1.code), ..s1 }, 2)
        },
        MdTagEnd::List => {
            let s1 = RenderState {
                lists: if st.lists.len() > 0 { st.lists.drop_last() } else { st.lists },
                ..st
            };
            block_boundary(s1)
        },
        MdTagEnd::Item => ensure_newlines(RenderState { item: sat_dec(st.item), ..st }, 1),
        MdTagEnd::Emphasis => push(st, seq!['_']),
        MdTagEnd::Strong => end_strong(st),
        MdTagEnd::Strikethrough => push(st, seq!['~']),
        MdTagEnd::Link => end_link(st),
        MdTagEnd::Image => end_link(st),
        MdTagEnd::Table => block_boundary(st),
        MdTagEnd::TableRow => {
            let s1 = RenderState {
                cells: if st.cells.len() > 0 { st.cells.drop_last() } else { st.cells },
                ..st
            };
            ensure_newlines(s1, 1)
        },
        MdTagEnd::Other => st,
    }
}

/// What one event does.
pub open spec fn step(st: RenderState, ev: MdEvent) -> RenderState {
    match ev {
        MdEvent::Start(tag) => start_tag(st, tag),
        MdEvent::End(tag) => end_tag(st, tag),
        MdEvent::Text(t) => if st.code > 0 {
            push(st, escaped(t@, code_reserved()))
        } else {
            push(st, escaped(t@, text_reserved()))
        },
        MdEvent::Code(c) => push(st, seq!['`'] + escaped(c@, code_reserved()) + seq!['`']),
        MdEvent::Html(h) => push(st, escaped(h@, text_reserved())),
        MdEvent::FootnoteReference(r) => push(
            st,
            escaped(seq!['['] + r@ + seq![']'], text_reserved()),
        ),
        MdEvent::LineBreak => ensure_newlines(st, 1),
        MdEvent::Rule => ensure_newlines(push(ensure_newlines(st, 2), rule_line()), 2),
        MdEvent::TaskListMarker(checked) => push(
            st,
            if checked {
                seq!['\u{2611}', ' ']
            } else {
                seq!['\u{2610}', ' ']
            },
        ),
        MdEvent::Other => st,
    }
}

/// The state after all of `events`, from the left.
pub open spec fn run(st: RenderState, events: Seq<MdEvent>) -> RenderState
    decreases events.len(),
{
    if events.len() == 0 {
        st
    } else {
        step(run(st, events.drop_last()), events.last())
    }
}

/// The MarkdownV2 text for an event stream: the output, without line breaks
/// at either end.
pub open spec fn rendered(events: Seq<MdEvent>) -> Seq<char> {
    strip_both(run(initial_state(), events).output, '\n')
}

} // verus!

verus! {

/// The views of a list of character buffers.
pub open spec fn buffer_views(v: Seq<Vec<char>>) -> Seq<Seq<char>> {
    v.map_values(|b: Vec<char>| b@)
}

pub open spec fn counter_views(v: Seq<Option<u128>>) -> Seq<Option<int>> {
    v.map_values(
        |o: Option<u128>|
            match o {
                Some(n) => Some(n as int),
                None => None,
            },
    )
}

/// The executable renderer: the state of [`RenderState`] in machine form.
pub struct Renderer {
    output: Vec<char>,
    quote_buffers: Vec<Vec<char>>,
    link_targets: Vec<Vec<char>>,
    list_stack: Vec<Option<u128>>,
    strong_markers: Vec<bool>,
    heading_depth: usize,
    item_depth: usize,
    code_block_depth: usize,
    table_first_cells: Vec<bool>,
}

/// The counters of `st` can each take one more step.
pub open spec fn can_step(st: RenderState) -> bool {
    &&& st.heading < usize::MAX
    &&& st.item < usize::MAX
    &&& st.code < usize::MAX
    &&& forall|i: int| 0 <= i < st.lists.len() ==> (#[trigger] st.lists[i] matches Some(n) ==> n
        < u128::MAX)
}

/// After `n` events no counter has grown past `n` (list numbers past `u64::MAX + n`).
pub open spec fn within(st: RenderState, n: int) -> bool {
    &&& st.heading <= n
    &&& st.item <= n
    &&& st.code <= n
    &&& forall|i: int| 0 <= i < st.lists.len() ==> (#[trigger] st.lists[i] matches Some(k) ==> k
        <= u64::MAX + n)
}

/// Pushing text and adding line breaks leave every counter as it was.
proof fn lemma_target_frame(st: RenderState, t: Seq<char>)
    ensures
        with_target(st, t).lists == st.lists,
        with_target(st, t).heading == st.heading,
        with_target(st, t).item == st.item,
        with_target(st, t).code == st.code,
        with_target(st, t).quotes.len() == st.quotes.len(),
{
}

proof fn lemma_start_within(st: RenderState, tag: MdTag, n: int)
    requires
        within(st, n),
        0 <= n,
    ensures
        within(start_tag(st, tag), n + 1),
{
    lemma_target_frame(st, with_newlines(target(st), 1));
    lemma_target_frame(st, with_newlines(target(st), 2));
    let s2 = start_tag(st, tag);
    match tag {
        MdTag::Item => {
            let s1 = ensure_newlines(st, 1);
            if s1.lists.len() > 0 && s1.lists.last() is Some {
                let k = s1.lists.len() - 1;
                let t = RenderState { lists: s1.lists.update(k, Some(s1.lists.last()->0 + 1)), ..s1 };
                lemma_target_frame(t, target(t) + decimal(s1.lists.last()->0 as nat) + seq!['\\', '.', ' ']);
                assert(st.lists[k] matches Some(j) ==> j <= u64::MAX + n);
            } else {
                lemma_target_frame(s1, target(s1) + bullet());
            }
            assert forall|i: int| 0 <= i < s2.lists.len() implies (#[trigger] s2.lists[i] matches Some(
                j,
            ) ==> j <= u64::MAX + n + 1) by {
                assert(st.lists[i] matches Some(j) ==> j <= u64::MAX + n);
            }
        },
        MdTag::List(start) => {
            let s1 = block_boundary(st);
            assert forall|i: int| 0 <= i < s2.lists.len() implies (#[trigger] s2.lists[i] matches Some(
                j,
            ) ==> j <= u64::MAX + n + 1) by {
                if i < st.lists.len() {
                    assert(st.lists[i] matches Some(j) ==> j <= u64::MAX + n);
                }
            }
        },
        MdTag::Heading => {
            let s1 = block_boundary(st);
            let t = RenderState { heading: s1.heading + 1, ..s1 };
            lemma_target_frame(t, target(t) + seq!['*']);
        },
        MdTag::CodeBlock => {
            let s1 = block_boundary(st);
            lemma_target_frame(s1, target(s1) + seq!['`', '`', '`', '\n']);
        },
        MdTag::Emphasis => {
            lemma_target_frame(st, target(st) + seq!['_']);
        },
        MdTag::Strikethrough => {
            lemma_target_frame(st, target(st) + seq!['~']);
        },
        MdTag::Strong => {
            let s1 = RenderState { strong: st.strong.push(st.heading == 0 && !st.strong.contains(true)), ..st };
            lemma_target_frame(s1, target(s1) + seq!['*']);
        },
        MdTag::Link(d) => {
            lemma_target_frame(st, target(st) + seq!['[']);
        },
        MdTag::Image(d) => {
            lemma_target_frame(st, target(st) + seq!['[']);
        },
        MdTag::TableRow => {},
        MdTag::TableCell => {
            lemma_target_frame(st, target(st) + cell_separator());
        },
        _ => {},
    }
}

proof fn lemma_end_within(st: RenderState, tag: MdTagEnd, n: int)
    requires
        within(st, n),
        0 <= n,
    ensures
        within(end_tag(st, tag), n + 1),
{
    let s2 = end_tag(st, tag);
    match tag {
        MdTagEnd::List => {
            let s1 = RenderState {
                lists: if st.lists.len() > 0 { st.lists.drop_last() } else { st.lists },
                ..st
            };
            lemma_target_frame(s1, with_newlines(target(s1), 1));
            lemma_target_frame(s1, with_newlines(target(s1), 2));
            assert forall|i: int| 0 <= i < s2.lists.len() implies (#[trigger] s2.lists[i] matches Some(
                j,
            ) ==> j <= u64::MAX + n + 1) by {
                assert(st.lists[i] matches Some(j) ==> j <= u64::MAX + n);
            }
        },
        MdTagEnd::Heading => {
            let s1 = push(st, seq!['*']);
            lemma_target_frame(st, target(st) + seq!['*']);
            let t = RenderState { heading: sat_dec(s1.heading), ..s1 };
            lemma_target_frame(t, with_newlines(target(t), 2));
        },
        MdTagEnd::CodeBlock => {
            let s0 = ensure_newlines(st, 1);
            lemma_target_frame(st, with_newlines(target(st), 1));
            let s1 = push(s0, seq!['`', '`', '`']);
            lemma_target_frame(s0, target(s0) + seq!['`', '`', '`']);
            let t = RenderState { code: sat_dec(s1.code), ..s1 };
            lemma_target_frame(t, with_newlines(target(t), 2));
        },
        MdTagEnd::Item => {
            let t = RenderState { item: sat_dec(st.item), ..st };
            lemma_target_frame(t, with_newlines(target(t), 1));
        },
        MdTagEnd::BlockQuote => {
            if st.quotes.len() > 0 {
                let s1 = RenderState { quotes: st.quotes.drop_last(), ..st };
                lemma_target_frame(s1, target(s1) + quoted(st.quotes.last()));
                let s3 = push(s1, quoted(st.quotes.last()));
                lemma_target_frame(s3, with_newlines(target(s3), 2));
            }
        },
        MdTagEnd::Strong => {
            if st.strong.len() > 0 {
                let s1 = RenderState { strong: st.strong.drop_last(), ..st };
                lemma_target_frame(s1, target(s1) + seq!['*']);
            }
        },
        MdTagEnd::Link | MdTagEnd::Image => {
            let dest = if st.links.len() > 0 { st.links.last() } else { Seq::empty() };
            let s1 = RenderState { links: if st.links.len() > 0 { st.links.drop_last() } else { st.links }, ..st };
            lemma_target_frame(s1, target(s1) + (seq![']', '('] + escaped(dest, link_reserved()) + seq![')']));
        },
        MdTagEnd::TableRow => {
            let s1 = RenderState {
                cells: if st.cells.len() > 0 { st.cells.drop_last() } else { st.cells },
                ..st
            };
            lemma_target_frame(s1, with_newlines(target(s1), 1));
        },
        _ => {
            lemma_target_frame(st, with_newlines(target(st), 1));
            lemma_target_frame(st, with_newlines(target(st), 2));
            lemma_target_frame(st, target(st) + seq!['_']);
            lemma_target_frame(st, target(st) + seq!['~']);
        },
    }
}

proof fn lemma_step_within(st: RenderState, ev: MdEvent, n: int)
    requires
        within(st, n),
        0 <= n,
    ensures
        within(step(st, ev), n + 1),
{
    match ev {
        MdEvent::Start(tag) => lemma_start_within(st, tag, n),
        MdEvent::End(tag) => lemma_end_within(st, tag, n),
        MdEvent::Rule => {
            let s1 = ensure_newlines(st, 2);
            lemma_target_frame(st, with_newlines(target(st), 2));
            let s2 = push(s1, rule_line());
            lemma_target_frame(s1, target(s1) + rule_line());
            lemma_target_frame(s2, with_newlines(target(s2), 2));
        },
        MdEvent::LineBreak => {
            lemma_target_frame(st, with_newlines(target(st), 1));
        },
        _ => {
            lemma_push_any_frame(st);
        },
    }
}

proof fn lemma_push_any_frame(st: RenderState)
    ensures
        forall|s: Seq<char>| #[trigger] push(st, s).lists == st.lists && push(st, s).heading == st.heading
            && push(st, s).item == st.item && push(st, s).code == st.code,
{
}

impl Renderer {
    pub closed spec fn view(&self) -> RenderState {
        RenderState {
            output: self.output@,
            quotes: buffer_views(self.quote_buffers@),
            links: buffer_views(self.link_targets@),
            lists: counter_views(self.list_stack@),
            strong: self.strong_markers@,
            heading: self.heading_depth as nat,
            item: self.item_depth as nat,
            code: self.code_block_depth as nat,
            cells: self.table_first_cells@,
        }
    }

    fn new() -> (r: Renderer)
        ensures
            r.view() == initial_state(),
    {
        let r = Renderer {
            output: Vec::new(),
            quote_buffers: Vec::new(),
            link_targets: Vec::new(),
            list_stack: Vec::new(),
            strong_markers: Vec::new(),
            heading_depth: 0,
            item_depth: 0,
            code_block_depth: 0,
            table_first_cells: Vec::new(),
        };
        assert(buffer_views(r.quote_buffers@) =~= Seq::<Seq<char>>::empty());
        assert(buffer_views(r.link_targets@) =~= Seq::<Seq<char>>::empty());
        assert(counter_views(r.list_stack@) =~= Seq::<Option<int>>::empty());
        assert(r.view() =~= initial_state());
        r
    }

    fn push_chars(&mut self, s: &[char])
        ensures
            final(self).view() == push(old(self).view(), s@),
    {
        let ghost old_quotes = self.quote_buffers@;
        match self.quote_buffers.pop() {
            Some(mut buffer) => {
                extend_chars(&mut buffer, s);
                self.quote_buffers.push(buffer);
                proof {
                    let n = old_quotes.len() - 1;
                    assert(buffer_views(self.quote_buffers@) =~= buffer_views(old_quotes).update(
                        n,
                        buffer_views(old_quotes)[n] + s@,
                    ));
                }
            },
            None => {
                extend_chars(&mut self.output, s);
            },
        }
        assert(self.view() =~= push(old(self).view(), s@));
    }

    fn push_char(&mut self, c: char)
        ensures
            final(self).view() == push(old(self).view(), seq![c]),
    {
        let one = [c];
        assert(one@ == seq![c]);
        self.push_chars(&one);
    }

    fn ensure_newlines(&mut self, count: usize)
        ensures
            final(self).view() == ensure_newlines(old(self).view(), count as nat),
    {
        let ghost old_quotes = self.quote_buffers@;
        match self.quote_buffers.pop() {
            Some(mut buffer) => {
                add_newlines(&mut buffer, count);
                self.quote_buffers.push(buffer);
                proof {
                    let n = old_quotes.len() - 1;
                    assert(buffer_views(self.quote_buffers@) =~= buffer_views(old_quotes).update(
                        n,
                        with_newlines(buffer_views(old_quotes)[n], count as nat),
                    ));
                }
            },
            None => {
                add_newlines(&mut self.output, count);
            },
        }
        assert(self.view() =~= ensure_newlines(old(self).view(), count as nat));
    }

    fn ensure_block_boundary(&mut self)
        ensures
            final(self).view() == block_boundary(old(self).view()),
    {
        if self.item_depth == 0 {
            self.ensure_newlines(2);
        } else {
            self.ensure_newlines(1);
        }
    }
}

fn count_trailing_newlines(s: &[char]) -> (res: usize)
    ensures
        res == trailing_newlines(s@),
{
    let mut j: usize = s.len();
    assert(s@.subrange(0, j as int) == s@);
    while j > 0 && s[j - 1] == '\n'
        invariant
            j <= s@.len(),
            trailing_newlines(s@) == (s@.len() - j) + trailing_newlines(s@.subrange(0, j as int)),
        decreases j,
    {
        assert(s@.subrange(0, j as int).drop_last() == s@.subrange(0, j - 1));
        j = j - 1;
    }
    s.len() - j
}

fn add_newlines(t: &mut Vec<char>, count: usize)
    ensures
        final(t)@ == with_newlines(old(t)@, count as nat),
{
    if t.len() == 0 {
        return;
    }
    let existing = count_trailing_newlines(t.as_slice());
    let mut k: usize = existing;
    while k < count
        invariant
            existing == trailing_newlines(old(t)@),
            existing <= k <= count || (existing >= count && k == existing),
            k < count ==> existing <= k,
            t@ == old(t)@ + newlines((if k > existing { k - existing } else { 0 }) as nat),
        decreases count - k,
    {
        t.push('\n');
        assert(t@ == old(t)@ + newlines((k + 1 - existing) as nat));
        k = k + 1;
    }
    assert(existing < count ==> newlines((count - existing) as nat) == newlines(
        (count - trailing_newlines(old(t)@)) as nat,
    ));
    assert(existing >= count ==> t@ == old(t)@);
}

} // verus!

verus! {

fn contains_true(v: &Vec<bool>) -> (res: bool)
    ensures
        res == v@.contains(true),
{
    let mut i: usize = 0;
    while i < v.len()
        invariant
            i <= v@.len(),
            forall|k: int| 0 <= k < i ==> !v@[k],
        decreases v@.len() - i,
    {
        if v[i] {
            assert(v@[i as int]);
            return true;
        }
        i = i + 1;
    }
    false
}

fn quote_lines(content: &[char]) -> (res: Vec<char>)
    ensures
        res@ == seq!['>'] + quote_breaks(content@),
{
    let mut out: Vec<char> = Vec::new();
    out.push('>');
    let mut i: usize = 0;
    while i < content.len()
        invariant
            i <= content@.len(),
            out@ == seq!['>'] + quote_breaks(content@.subrange(0, i as int)),
        decreases content@.len() - i,
    {
        let c = content[i];
        if c == '\n' {
            out.push('\n');
            out.push('>');
        } else {
            out.push(c);
        }
        assert(content@.subrange(0, i + 1).drop_last() == content@.subrange(0, i as int));
        i = i + 1;
    }
    assert(content@.subrange(0, content@.len() as int) == content@);
    out
}

impl Renderer {
    fn start_tag(&mut self, tag: &MdTag)
        requires
            can_step(old(self).view()),
        ensures
            final(self).view() == start_tag(old(self).view(), *tag),
    {
        match tag {
            MdTag::Paragraph => {},
            MdTag::Heading => {
                self.ensure_block_boundary();
                self.heading_depth = self.heading_depth + 1;
                self.push_char('*');
            },
            MdTag::BlockQuote => {
                self.ensure_block_boundary();
                let ghost before = self.quote_buffers@;
                self.quote_buffers.push(Vec::new());
                assert(buffer_views(self.quote_buffers@) =~= buffer_views(before).push(
                    Seq::empty(),
                ));
            },
            MdTag::CodeBlock => {
                self.ensure_block_boundary();
                let fence = ['`', '`', '`', '\n'];
                assert(fence@ == seq!['`', '`', '`', '\n']);
                self.push_chars(&fence);
                self.code_block_depth = self.code_block_depth + 1;
            },
            MdTag::List(start) => {
                self.ensure_block_boundary();
                let ghost before = self.list_stack@;
                let counter: Option<u128> = match start {
                    Some(n) => Some(*n as u128),
                    None => None,
                };
                self.list_stack.push(counter);
                assert(counter_views(self.list_stack@) =~= counter_views(before).push(
                    opt_int(*start),
                ));
            },
            MdTag::Item => {
                self.ensure_newlines(1);
                let ghost s1 = self.view();
                let ghost before = self.list_stack@;
                match self.list_stack.pop() {
                    Some(Some(next)) => {
                        let mut marker: Vec<char> = Vec::new();
                        push_decimal(&mut marker, next);
                        marker.push('\\');
                        marker.push('.');
                        marker.push(' ');
                        assert(marker@ =~= decimal(next as nat) + seq!['\\', '.', ' ']);
                        assert(counter_views(before)[before.len() - 1] == Some(next as int));
                        assert(s1.lists[s1.lists.len() - 1] matches Some(k) ==> k < u128::MAX);
                        self.list_stack.push(Some(next + 1));
                        assert(counter_views(self.list_stack@) =~= s1.lists.update(
                            s1.lists.len() - 1,
                            Some(next + 1),
                        ));
                        self.push_chars(marker.as_slice());
                    },
                    Some(None) => {
                        self.list_stack.push(None);
                        assert(self.list_stack@ =~= before);
                        let b = ['\u{2022}', ' '];
                        assert(b@ == bullet());
                        self.push_chars(&b);
                    },
                    None => {
                        let b = ['\u{2022}', ' '];
                        assert(b@ == bullet());
                        self.push_chars(&b);
                    },
                }
                self.item_depth = self.item_depth + 1;
            },
            MdTag::Emphasis => self.push_char('_'),
            MdTag::Strong => {
                let emit = self.heading_depth == 0 && !contains_true(&self.strong_markers);
                self.strong_markers.push(emit);
                if emit {
                    self.push_char('*');
                }
            },
            MdTag::Strikethrough => self.push_char('~'),
            MdTag::Link(dest) | MdTag::Image(dest) => {
                self.push_char('[');
                let ghost before = self.link_targets@;
                let d = chars_of(dest.as_str());
                self.link_targets.push(d);
                assert(buffer_views(self.link_targets@) =~= buffer_views(before).push(dest@));
            },
            MdTag::Table => self.ensure_block_boundary(),
            MdTag::TableRow => {
                self.ensure_newlines(1);
                self.table_first_cells.push(true);
            },
            MdTag::TableCell => {
                let n = self.table_first_cells.len();
                if n > 0 && !self.table_first_cells[n - 1] {
                    let sep = [' ', '\u{2502}', ' '];
                    assert(sep@ == cell_separator());
                    self.push_chars(&sep);
                }
                if n > 0 {
                    self.table_first_cells.set(n - 1, false);
                }
            },
            MdTag::Other => {},
        }
    }

    fn end_block_quote(&mut self)
        ensures
            final(self).view() == end_block_quote(old(self).view()),
    {
        let ghost before = self.quote_buffers@;
        match self.quote_buffers.pop() {
            None => {},
            Some(content) => {
                assert(buffer_views(self.quote_buffers@) =~= buffer_views(before).drop_last());
                let stripped = strip_chars(content.as_slice(), '\n');
                let q = quote_lines(stripped.as_slice());
                self.push_chars(q.as_slice());
                self.ensure_newlines(2);
            },
        }
    }

    fn end_tag(&mut self, tag: &MdTagEnd)
        ensures
            final(self).view() == end_tag(old(self).view(), *tag),
    {
        match tag {
            MdTagEnd::Paragraph => {
                if self.item_depth == 0 {
                    self.ensure_newlines(2);
                }
            },
            MdTagEnd::Heading => {
                self.push_char('*');
                self.heading_depth = if self.heading_depth > 0 {
                    self.heading_depth - 1
                } else {
                    0
                };
                self.ensure_newlines(2);
            },
            MdTagEnd::BlockQuote => self.end_block_quote(),
            MdTagEnd::CodeBlock => {
                self.ensure_newlines(1);
                let fence = ['`', '`', '`'];
                assert(fence@ == seq!['`', '`', '`']);
                self.push_chars(&fence);
                self.code_block_depth = if self.code_block_depth > 0 {
                    self.code_block_depth - 1
                } else {
                    0
                };
                self.ensure_newlines(2);
            },
            MdTagEnd::List => {
                let ghost before = self.list_stack@;
                self.list_stack.pop();
                assert(counter_views(self.list_stack@) =~= if before.len() > 0 {
                    counter_views(before).drop_last()
                } else {
                    counter_views(before)
                });
                self.ensure_block_boundary();
            },
            MdTagEnd::Item => {
                self.item_depth = if self.item_depth > 0 {
                    self.item_depth - 1
                } else {
                    0
                };
                self.ensure_newlines(1);
            },
            MdTagEnd::Emphasis => self.push_char('_'),
            MdTagEnd::Strong => {
                match self.strong_markers.pop() {
                    Some(true) => self.push_char('*'),
                    _ => {},
                }
            },
            MdTagEnd::Strikethrough => self.push_char('~'),
            MdTagEnd::Link | MdTagEnd::Image => {
                let ghost before = self.link_targets@;
                let dest = match self.link_targets.pop() {
                    Some(d) => d,
                    None => Vec::new(),
                };
                assert(buffer_views(self.link_targets@) =~= if before.len() > 0 {
                    buffer_views(before).drop_last()
                } else {
                    buffer_views(before)
                });
                let mut piece: Vec<char> = Vec::new();
                piece.push(']');
                piece.push('(');
                let escaped_dest = escape_link_target(dest.as_slice());
                extend_chars(&mut piece, escaped_dest.as_slice());
                piece.push(')');
                assert(piece@ =~= seq![']', '('] + escaped(dest@, link_reserved()) + seq![')']);
                self.push_chars(piece.as_slice());
            },
            MdTagEnd::Table => self.ensure_block_boundary(),
            MdTagEnd::TableRow => {
                self.table_first_cells.pop();
                self.ensure_newlines(1);
            },
            MdTagEnd::Other => {},
        }
    }

    fn render_event(&mut self, event: &MdEvent)
        requires
            can_step(old(self).view()),
        ensures
            final(self).view() == step(old(self).view(), *event),
    {
        match event {
            MdEvent::Start(tag) => self.start_tag(tag),
            MdEvent::End(tag) => self.end_tag(tag),
            MdEvent::Text(text) => {
                let chars = chars_of(text.as_str());
                if self.code_block_depth > 0 {
                    let e = escape_code(chars.as_slice());
                    self.push_chars(e.as_slice());
                } else {
                    let e = escape_text(chars.as_slice());
                    self.push_chars(e.as_slice());
                }
            },
            MdEvent::Code(code) => {
                let chars = chars_of(code.as_str());
                let mut piece: Vec<char> = Vec::new();
                piece.push('`');
                let e = escape_code(chars.as_slice());
                extend_chars(&mut piece, e.as_slice());
                piece.push('`');
                assert(piece@ =~= seq!['`'] + escaped(code@, code_reserved()) + seq!['`']);
                self.push_chars(piece.as_slice());
            },
            MdEvent::Html(html) => {
                let chars = chars_of(html.as_str());
                let e = escape_text(chars.as_slice());
                self.push_chars(e.as_slice());
            },
            MdEvent::FootnoteReference(label) => {
                let chars = chars_of(label.as_str());
                let mut piece: Vec<char> = Vec::new();
                piece.push('[');
                extend_chars(&mut piece, chars.as_slice());
                piece.push(']');
                assert(piece@ =~= seq!['['] + label@ + seq![']']);
                let e = escape_text(piece.as_slice());
                self.push_chars(e.as_slice());
            },
            MdEvent::LineBreak => self.ensure_newlines(1),
            MdEvent::Rule => {
                self.ensure_newlines(2);
                let line = ['\u{2500}', '\u{2500}', '\u{2500}', '\u{2500}', '\u{2500}', '\u{2500}', '\u{2500}', '\u{2500}'];
                assert(line@ =~= rule_line());
                self.push_chars(&line);
                self.ensure_newlines(2);
            },
            MdEvent::TaskListMarker(checked) => {
                if *checked {
                    let m = ['\u{2611}', ' '];
                    self.push_chars(&m);
                } else {
                    let m = ['\u{2610}', ' '];
                    self.push_chars(&m);
                }
            },
            MdEvent::Other => {},
        }
    }

    fn finish(self) -> (res: String)
        ensures
            res@ == strip_both(self.view().output, '\n'),
    {
        let t = strip_chars(self.output.as_slice(), '\n');
        string_of(t.as_slice())
    }
}

/// Renders a CommonMark event stream as Telegram MarkdownV2.
pub fn render_events(events: &[MdEvent]) -> (res: String)
    ensures
        res@ == rendered(events@),
{
    let mut renderer = Renderer::new();
    let mut i: usize = 0;
    while i < events.len()
        invariant
            i <= events@.len(),
            renderer.view() == run(initial_state(), events@.subrange(0, i as int)),
            within(renderer.view(), i as int),
        decreases events@.len() - i,
    {
        proof {
            lemma_step_within(renderer.view(), events@[i as int], i as int);
            assert(events@.subrange(0, i + 1).drop_last() == events@.subrange(0, i as int));
            assert(events@.subrange(0, i + 1).last() == events@[i as int]);
        }
        renderer.render_event(&events[i]);
        i = i + 1;
    }
    assert(events@.subrange(0, events@.len() as int) == events@);
    renderer.finish()
}

/// Converts Codex's CommonMark answer into Telegram MarkdownV2: headings and
/// strong text in `*`, emphasis in `_`, strikethrough in `~`, links kept,
/// block quotes prefixed by `>`, code fenced, and every reserved character of
/// plain text escaped.
pub fn render(markdown: &str) -> (res: String)
    ensures
        res@ == rendered(commonmark_events(markdown@)),
{
    let events = parse_commonmark(markdown);
    render_events(events.as_slice())
}

} // verus!

verus! {

// ---------------------------------------------------------------------------
// Line breaks
// ---------------------------------------------------------------------------

proof fn lemma_escaped_ends(s: Seq<char>, reserved: Seq<char>)
    requires
        s.len() > 0,
        !reserved.contains('\n'),
    ensures
        escaped(s, reserved).len() > 0,
        escaped(s, reserved).last() == s.last(),
        s[0] != '\n' ==> escaped(s, reserved)[0] != '\n',
{
    lemma_escaped_front(s, reserved);
}

proof fn lemma_run_push(st: RenderState, events: Seq<MdEvent>, e: MdEvent)
    ensures
        run(st, events.push(e)) == step(run(st, events), e),
        run(st, Seq::empty()) == st,
{
    assert(events.push(e).drop_last() == events);
}

proof fn lemma_no_trailing_newline(s: Seq<char>)
    requires
        s.len() > 0,
        s.last() != '\n',
    ensures
        trailing_newlines(s) == 0,
{
}

/// A line break between two pieces of text puts a line break between them
/// in the output: after text `t1` (not ending in a line break), a soft or
/// hard break and text `t2`, outside code, the place where text goes has
/// gained exactly `t1` escaped, one `\n`, and `t2` escaped.
pub proof fn lemma_line_break_separates(st: RenderState, t1: String, t2: String)
    requires
        st.code == 0,
        t1@.len() > 0,
        t1@.last() != '\n',
    ensures
        target(run(st, seq![MdEvent::Text(t1), MdEvent::LineBreak, MdEvent::Text(t2)])) == target(st)
            + escaped(t1@, text_reserved()) + seq!['\n'] + escaped(t2@, text_reserved()),
{
    let a = Seq::<MdEvent>::empty().push(MdEvent::Text(t1));
    let b = a.push(MdEvent::LineBreak);
    let evs = b.push(MdEvent::Text(t2));
    assert(evs == seq![MdEvent::Text(t1), MdEvent::LineBreak, MdEvent::Text(t2)]);
    lemma_run_push(st, Seq::empty(), MdEvent::Text(t1));
    lemma_run_push(st, a, MdEvent::LineBreak);
    lemma_run_push(st, b, MdEvent::Text(t2));
    assert(!text_reserved().contains('\n')) by {
        if text_reserved().contains('\n') {
            let i = choose|i: int| 0 <= i < text_reserved().len() && text_reserved()[i] == '\n';
        }
    }
    let e1 = escaped(t1@, text_reserved());
    lemma_escaped_ends(t1@, text_reserved());
    let s1 = step(st, MdEvent::Text(t1));
    assert(run(st, a) == s1);
    assert(target(s1) == target(st) + e1);
    let x = target(st) + e1;
    assert(x.last() == e1.last());
    lemma_no_trailing_newline(x);
    let s2 = step(s1, MdEvent::LineBreak);
    assert(target(s2) == x + newlines(1));
    assert(newlines(1) =~= seq!['\n']);
    assert(s2.code == 0);
    let s3 = step(s2, MdEvent::Text(t2));
    assert(target(s3) == target(s2) + escaped(t2@, text_reserved()));
}

/// A paragraph of two lines renders as the two lines, escaped, with one
/// line break between them: the break is neither dropped nor doubled.
pub proof fn lemma_two_line_paragraph(t1: String, t2: String)
    requires
        t1@.len() > 0,
        t1@[0] != '\n',
        t1@.last() != '\n',
        t2@.len() > 0,
        t2@.last() != '\n',
    ensures
        rendered(
            seq![
                MdEvent::Start(MdTag::Paragraph),
                MdEvent::Text(t1),
                MdEvent::LineBreak,
                MdEvent::Text(t2),
                MdEvent::End(MdTagEnd::Paragraph),
            ],
        ) == escaped(t1@, text_reserved()) + seq!['\n'] + escaped(t2@, text_reserved()),
{
    let st0 = initial_state();
    let p0 = Seq::<MdEvent>::empty().push(MdEvent::Start(MdTag::Paragraph));
    let p1 = p0.push(MdEvent::Text(t1));
    let p2 = p1.push(MdEvent::LineBreak);
    let p3 = p2.push(MdEvent::Text(t2));
    let evs = p3.push(MdEvent::End(MdTagEnd::Paragraph));
    assert(evs == seq![
        MdEvent::Start(MdTag::Paragraph),
        MdEvent::Text(t1),
        MdEvent::LineBreak,
        MdEvent::Text(t2),
        MdEvent::End(MdTagEnd::Paragraph),
    ]);
    lemma_run_push(st0, Seq::empty(), MdEvent::Start(MdTag::Paragraph));
    lemma_run_push(st0, p0, MdEvent::Text(t1));
    lemma_run_push(st0, p1, MdEvent::LineBreak);
    lemma_run_push(st0, p2, MdEvent::Text(t2));
    lemma_run_push(st0, p3, MdEvent::End(MdTagEnd::Paragraph));
    let s0 = step(st0, MdEvent::Start(MdTag::Paragraph));
    assert(s0 == st0);
    lemma_line_break_separates(s0, t1, t2);
    assert(!text_reserved().contains('\n')) by {
        if text_reserved().contains('\n') {
            let i = choose|i: int| 0 <= i < text_reserved().len() && text_reserved()[i] == '\n';
        }
    }
    let e1 = escaped(t1@, text_reserved());
    let e2 = escaped(t2@, text_reserved());
    lemma_escaped_ends(t1@, text_reserved());
    lemma_escaped_ends(t2@, text_reserved());
    let s3 = run(st0, p3);
    let a = Seq::<MdEvent>::empty().push(MdEvent::Text(t1));
    let b = a.push(MdEvent::LineBreak);
    lemma_run_push(s0, Seq::empty(), MdEvent::Text(t1));
    lemma_run_push(s0, a, MdEvent::LineBreak);
    lemma_run_push(s0, b, MdEvent::Text(t2));
    assert(b.push(MdEvent::Text(t2)) == seq![MdEvent::Text(t1), MdEvent::LineBreak, MdEvent::Text(t2)]);
    assert(s3 == run(s0, b.push(MdEvent::Text(t2))));
    let x = e1 + seq!['\n'] + e2;
    assert(target(s3) == x);
    assert(s3.quotes.len() == 0 && s3.item == 0);
    assert(x.last() == e2.last());
    lemma_no_trailing_newline(x);
    let s4 = step(s3, MdEvent::End(MdTagEnd::Paragraph));
    assert(run(st0, evs) == s4);
    assert(s3.quotes.len() == 0);
    assert(s4.output == x + newlines(2));
    let y = x + newlines(2);
    assert(x[0] == e1[0]);
    assert(y[0] == x[0]);
    assert(crate::text::strip_start(y, '\n') == y);
    assert(y.drop_last() =~= x + newlines(1));
    assert((x + newlines(1)).drop_last() =~= x);
    assert(crate::text::strip_end(x, '\n') == x);
    assert(crate::text::strip_end(x + newlines(1), '\n') == x);
    assert(crate::text::strip_end(y, '\n') == x);
}

} // verus!
