//! The events of a Markdown text, as plain values.

use pulldown_cmark::{Alignment, CodeBlockKind, Event, Options, Parser, Tag, TagEnd};
use vstd::prelude::*;

verus! {

#[verifier::external_type_specification]
#[verifier::external_body]
pub struct ExEvent<'a>(pulldown_cmark::Event<'a>);

/// What an event is.
#[derive(Clone, Debug)]
pub enum MdBody {
    Start,
    End,
    Text(String),
    Code(String),
    Math(String),
    SoftBreak,
    HardBreak,
    Rule,
    Task(bool),
    Other,
}

/// Which element a start or end event belongs to.
#[derive(Clone, Copy, Debug, PartialEq, Eq, Structural)]
pub enum MdTag {
    Paragraph,
    Heading(u8),
    BlockQuote,
    CodeBlock,
    List,
    Item,
    Table,
    TableHead,
    TableRow,
    TableCell,
    Emphasis,
    Strong,
    Strikethrough,
    Link,
    Other,
}

/// Alignment of a table column.
#[derive(Clone, Copy, Debug, PartialEq, Eq, Structural)]
pub enum MdAlign {
    Default,
    Left,
    Center,
    Right,
}

/// What a start event carries.
#[derive(Clone, Debug)]
pub enum MdDetail {
    Plain,
    /// The destination of a link.
    Link(String),
    /// The language of a fenced code block.
    Fence(String),
    /// The columns of a table.
    Columns(Vec<MdAlign>),
}

/// One event.
#[derive(Clone, Debug)]
pub struct MdEvent {
    pub body: MdBody,
    pub tag: MdTag,
    pub detail: MdDetail,
}

/// What an event is.
pub enum MdBodyView {
    Start,
    End,
    Text(Seq<char>),
    Code(Seq<char>),
    Math(Seq<char>),
    SoftBreak,
    HardBreak,
    Rule,
    Task(bool),
    Other,
}

/// What a start event carries.
pub enum MdDetailView {
    Plain,
    Link(Seq<char>),
    Fence(Seq<char>),
    Columns(Seq<MdAlign>),
}

/// What an event holds.
pub struct MdEventView {
    pub body: MdBodyView,
    pub tag: MdTag,
    pub detail: MdDetailView,
}

impl View for MdBody {
    type V = MdBodyView;

    open spec fn view(&self) -> MdBodyView {
        match *self {
            MdBody::Start => MdBodyView::Start,
            MdBody::End => MdBodyView::End,
            MdBody::Text(s) => MdBodyView::Text(s@),
            MdBody::Code(s) => MdBodyView::Code(s@),
            MdBody::Math(s) => MdBodyView::Math(s@),
            MdBody::SoftBreak => MdBodyView::SoftBreak,
            MdBody::HardBreak => MdBodyView::HardBreak,
            MdBody::Rule => MdBodyView::Rule,
            MdBody::Task(b) => MdBodyView::Task(b),
            MdBody::Other => MdBodyView::Other,
        }
    }
}

impl View for MdDetail {
    type V = MdDetailView;

    open spec fn view(&self) -> MdDetailView {
        match *self {
            MdDetail::Plain => MdDetailView::Plain,
            MdDetail::Link(s) => MdDetailView::Link(s@),
            MdDetail::Fence(s) => MdDetailView::Fence(s@),
            MdDetail::Columns(v) => MdDetailView::Columns(v@),
        }
    }
}

impl View for MdEvent {
    type V = MdEventView;

    open spec fn view(&self) -> MdEventView {
        MdEventView { body: self.body@, tag: self.tag, detail: self.detail@ }
    }
}

/// What a pulldown-cmark event holds.
pub uninterp spec fn event_holds(e: pulldown_cmark::Event<'_>) -> MdEventView;

/// What the events of `text` hold, when they are parsed with the given
/// extensions: tables, strikethrough and task lists.
pub uninterp spec fn markdown_events(
    text: Seq<char>,
    tables: bool,
    strikethrough: bool,
    tasks: bool,
) -> Seq<MdEventView>;

/// What parsed events hold.
pub open spec fn events_hold(v: Seq<pulldown_cmark::Event<'_>>) -> Seq<MdEventView> {
    Seq::new(v.len(), |i: int| event_holds(v[i]))
}

/// `pulldown_cmark::Parser` over `text`: all its events, in order. They are a
/// function of the text and the options.
#[verifier::external_body]
fn parse_markdown(text: &str, tables: bool, strikethrough: bool, tasks: bool) -> (out: Vec<
    pulldown_cmark::Event<'_>,
>)
    ensures
        events_hold(out@) == markdown_events(text@, tables, strikethrough, tasks),
{
    let mut opts = Options::empty();
    opts.set(Options::ENABLE_TABLES, tables);
    opts.set(Options::ENABLE_STRIKETHROUGH, strikethrough);
    opts.set(Options::ENABLE_TASKLISTS, tasks);
    Parser::new_ext(text, opts).collect()
}

/// The variant of a `pulldown_cmark::Event` and the text in it; both kinds of
/// math are one, and HTML and footnote references are not told apart.
#[verifier::external_body]
fn event_body(e: &pulldown_cmark::Event<'_>) -> (b: MdBody)
    ensures
        b@ == event_holds(*e).body,
{
    match e {
        Event::Start(_) => MdBody::Start,
        Event::End(_) => MdBody::End,
        Event::Text(t) => MdBody::Text(String::from(&**t)),
        Event::Code(t) => MdBody::Code(String::from(&**t)),
        Event::InlineMath(t) | Event::DisplayMath(t) => MdBody::Math(String::from(&**t)),
        Event::SoftBreak => MdBody::SoftBreak,
        Event::HardBreak => MdBody::HardBreak,
        Event::Rule => MdBody::Rule,
        Event::TaskListMarker(done) => MdBody::Task(*done),
        _ => MdBody::Other,
    }
}

/// The tag of a start event (`Tag::to_end`) or end event of
/// `pulldown_cmark`; elements that are not told apart, and other events, give
/// `Other`.
#[verifier::external_body]
fn event_tag(e: &pulldown_cmark::Event<'_>) -> (t: MdTag)
    ensures
        t == event_holds(*e).tag,
{
    let Some(tag) = (match e { Event::Start(t) => Some(t.to_end()), Event::End(t) => Some(*t), _ => None }) else {
        return MdTag::Other;
    };
    match tag {
        TagEnd::Paragraph => MdTag::Paragraph, TagEnd::Heading(l) => MdTag::Heading(l as u8),
        TagEnd::BlockQuote(_) => MdTag::BlockQuote, TagEnd::CodeBlock => MdTag::CodeBlock,
        TagEnd::List(_) => MdTag::List, TagEnd::Item => MdTag::Item,
        TagEnd::Table => MdTag::Table, TagEnd::TableHead => MdTag::TableHead,
        TagEnd::TableRow => MdTag::TableRow, TagEnd::TableCell => MdTag::TableCell,
        TagEnd::Emphasis => MdTag::Emphasis, TagEnd::Strong => MdTag::Strong,
        TagEnd::Strikethrough => MdTag::Strikethrough, TagEnd::Link => MdTag::Link,
        _ => MdTag::Other,
    }
}

/// What the `pulldown_cmark::Tag` of a start event carries: a link's
/// destination, a fence's language or a table's columns.
#[verifier::external_body]
fn event_detail(e: &pulldown_cmark::Event<'_>) -> (d: MdDetail)
    ensures
        d@ == event_holds(*e).detail,
{
    match e {
        Event::Start(Tag::Link { dest_url, .. }) => MdDetail::Link(String::from(&**dest_url)),
        Event::Start(Tag::CodeBlock(CodeBlockKind::Fenced(lang))) => MdDetail::Fence(String::from(&**lang)),
        Event::Start(Tag::Table(columns)) => MdDetail::Columns(columns.iter().map(|a| match a {
            Alignment::None => MdAlign::Default,
            Alignment::Left => MdAlign::Left,
            Alignment::Center => MdAlign::Center,
            Alignment::Right => MdAlign::Right,
        }).collect()),
        _ => MdDetail::Plain,
    }
}

/// What events hold.
pub open spec fn event_views(v: Seq<MdEvent>) -> Seq<MdEventView> {
    Seq::new(v.len(), |i: int| v[i]@)
}

/// The events of a Markdown text with tables, strikethrough and task lists.
pub fn read_events(text: &str) -> (out: Vec<MdEvent>)
    ensures
        event_views(out@) == markdown_events(text@, true, true, true),
{
    let parsed = parse_markdown(text, true, true, true);
    let mut out: Vec<MdEvent> = Vec::new();
    let mut i: usize = 0;
    let ghost want = events_hold(parsed@);
    while i < parsed.len()
        invariant
            i <= parsed@.len(),
            want == events_hold(parsed@),
            event_views(out@) =~= want.take(i as int),
        decreases parsed@.len() - i,
    {
        let e = MdEvent {
            body: event_body(&parsed[i]),
            tag: event_tag(&parsed[i]),
            detail: event_detail(&parsed[i]),
        };
        assert(e@ == want[i as int]);
        let ghost before = event_views(out@);
        out.push(e);
        i += 1;
        assert(event_views(out@) =~= before.push(want[i - 1]));
        assert(want.take(i as int) =~= want.take(i - 1).push(want[i - 1]));
    }
    assert(want.take(i as int) =~= want);
    out
}

} // verus!
