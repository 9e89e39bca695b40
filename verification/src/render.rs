//! The Markdown renderer: text to HTML, with one extension over standard
//! Markdown. A reference-style link whose label is defined nowhere in the
//! document is kept, and points at the document of that name.
//!
//! Rendering is one pass over the parser's events: parse, rewrite the
//! targets of the unresolved links, serialise.

use pulldown_cmark::{html, BrokenLink, CowStr, Event, LinkType, Options, Parser, Tag};
use vstd::prelude::*;
use vstd::string::*;

verus! {

/// `pulldown_cmark::Event`: one event of the parser, carried through as it is.
#[verifier::external_type_specification]
#[verifier::external_body]
pub struct ExEvent<'a>(Event<'a>);

/// `pulldown_cmark::LinkType`: how the parser says a link was written.
#[verifier::external_type_specification]
#[verifier::external_body]
pub struct ExLinkType(LinkType);

/// How a link was written in the source text.
#[derive(Clone, Copy, Debug, PartialEq, Eq, Structural)]
pub enum LinkKind {
    /// `[text](target)`
    Inline,
    /// `[text][label]`, with the label defined in the document
    Reference,
    /// `[text][label]`, with the label defined nowhere
    ReferenceUnknown,
    /// `[label][]`, with the label defined in the document
    Collapsed,
    /// `[label][]`, with the label defined nowhere
    CollapsedUnknown,
    /// `[label]`, with the label defined in the document
    Shortcut,
    /// `[label]`, with the label defined nowhere
    ShortcutUnknown,
    /// `<http://example.org/>`
    Autolink,
    /// `<someone@example.org>`
    Email,
}

impl LinkKind {
    /// Whether this is a reference-style link without a definition.
    pub open spec fn is_unresolved(self) -> bool {
        self is ReferenceUnknown || self is CollapsedUnknown || self is ShortcutUnknown
    }

    /// Whether this is a reference-style link without a definition.
    pub fn unresolved(self) -> (unresolved: bool)
        ensures
            unresolved == self.is_unresolved(),
    {
        match self {
            LinkKind::ReferenceUnknown | LinkKind::CollapsedUnknown | LinkKind::ShortcutUnknown => true,
            _ => false,
        }
    }
}

/// One parser event, with the start of a link laid open.
#[derive(Debug, PartialEq)]
pub enum Markup<'a> {
    /// The start of a link: how it was written, where it points, its title.
    LinkStart { kind: LinkKind, dest: String, title: String },
    /// Any other event.
    Other(Event<'a>),
}

/// The mathematical value of a [`Markup`].
pub ghost enum MarkupView<'a> {
    LinkStart { kind: LinkKind, dest: Seq<char>, title: Seq<char> },
    Other(Event<'a>),
}

impl<'a> View for Markup<'a> {
    type V = MarkupView<'a>;

    open spec fn view(&self) -> MarkupView<'a> {
        match *self {
            Markup::LinkStart { kind, dest, title } => MarkupView::LinkStart {
                kind,
                dest: dest@,
                title: title@,
            },
            Markup::Other(event) => MarkupView::Other(event),
        }
    }
}

/// The values of a sequence of events.
pub open spec fn markup_views<'a>(events: Seq<Markup<'a>>) -> Seq<MarkupView<'a>> {
    events.map_values(|m: Markup<'a>| m@)
}

/// The route under which a document is read.
pub open spec fn article_prefix() -> Seq<char> {
    "/article/"@
}

/// Where a link points after rewriting: an unresolved reference points at
/// the document named by its label, the label taken as it is; every other
/// link keeps its target.
pub open spec fn resolved_target(kind: LinkKind, dest: Seq<char>) -> Seq<char> {
    if kind.is_unresolved() {
        article_prefix() + dest
    } else {
        dest
    }
}

/// One event after rewriting.
pub open spec fn rewritten<'a>(event: MarkupView<'a>) -> MarkupView<'a> {
    match event {
        MarkupView::LinkStart { kind, dest, title } => MarkupView::LinkStart {
            kind,
            dest: resolved_target(kind, dest),
            title,
        },
        MarkupView::Other(e) => MarkupView::Other(e),
    }
}

/// A reference link without a definition points, after rewriting, at the
/// route of the document that its label names: the prefix and then the
/// label as it is. Kind and title stay.
pub proof fn lemma_unresolved_link_target(kind: LinkKind, label: Seq<char>, title: Seq<char>)
    requires
        kind.is_unresolved(),
    ensures
        rewritten(MarkupView::LinkStart { kind, dest: label, title }) == (MarkupView::LinkStart {
            kind,
            dest: article_prefix() + label,
            title,
        }),
{
}

/// Rewriting changes nothing but the start of a reference link without a
/// definition: a link with an inline target, a reference with a
/// definition and every other event stay as they are.
pub proof fn lemma_other_events_stay<'a>(event: MarkupView<'a>)
    requires
        !(event matches MarkupView::LinkStart { kind, .. } && kind.is_unresolved()),
    ensures
        rewritten(event) == event,
{
}

/// What the parser is told about a reference without a definition: the
/// label serves as target and as title.
pub fn handle_broken_link(reference: &str) -> (link: Option<(String, String)>)
    ensures
        link matches Some(pair) && pair.0@ == reference@ && pair.1@ == reference@,
{
    Some((reference.to_owned(), reference.to_owned()))
}

/// The target of a link after rewriting.
pub fn resolve_target(kind: LinkKind, dest: String) -> (target: String)
    ensures
        target@ == resolved_target(kind, dest@),
{
    if kind.unresolved() {
        String::from_str("/article/").concat(dest.as_str())
    } else {
        dest
    }
}

/// Rewrites one event.
pub fn rewrite_event<'a>(event: Markup<'a>) -> (out: Markup<'a>)
    ensures
        out@ == rewritten(event@),
{
    match event {
        Markup::LinkStart { kind, dest, title } => Markup::LinkStart {
            kind,
            dest: resolve_target(kind, dest),
            title,
        },
        Markup::Other(e) => Markup::Other(e),
    }
}

/// Rewrites the target of every unresolved reference link in a sequence of
/// events and leaves everything else as it is.
pub fn rewrite_links<'a>(events: Vec<Markup<'a>>) -> (out: Vec<Markup<'a>>)
    ensures
        markup_views(out@) == markup_views(events@).map_values(|m: MarkupView<'a>| rewritten(m)),
{
    let mut out: Vec<Markup<'a>> = Vec::new();
    let ghost all = events@;
    for event in iter: events
        invariant
            iter.seq() == all,
            out@.len() == iter.index(),
            forall|i: int| 0 <= i < out@.len() ==> (#[trigger] out@[i])@ == rewritten(all[i]@),
    {
        out.push(rewrite_event(event));
    }
    assert(markup_views(out@) =~= markup_views(all).map_values(|m: MarkupView<'a>| rewritten(m)));
    out
}

/// The events that the parser yields for a text, with every reference
/// that has no definition resolved as [`handle_broken_link`] says.
pub uninterp spec fn parsed_markup(text: Seq<char>) -> Seq<MarkupView<'static>>;

/// The HTML that the serialiser writes for a sequence of events.
pub uninterp spec fn rendered_html(events: Seq<MarkupView<'static>>) -> Seq<char>;

/// Converts `pulldown_cmark::LinkType` to [`LinkKind`], variant by variant.
#[verifier::external_body]
fn link_kind(link_type: LinkType) -> LinkKind {
    match link_type {
        LinkType::Inline => LinkKind::Inline,
        LinkType::Reference => LinkKind::Reference,
        LinkType::ReferenceUnknown => LinkKind::ReferenceUnknown,
        LinkType::Collapsed => LinkKind::Collapsed,
        LinkType::CollapsedUnknown => LinkKind::CollapsedUnknown,
        LinkType::Shortcut => LinkKind::Shortcut,
        LinkType::ShortcutUnknown => LinkKind::ShortcutUnknown,
        LinkType::Autolink => LinkKind::Autolink,
        LinkType::Email => LinkKind::Email,
    }
}

/// Converts [`LinkKind`] to `pulldown_cmark::LinkType`, variant by variant.
#[verifier::external_body]
fn link_type(kind: LinkKind) -> LinkType {
    match kind {
        LinkKind::Inline => LinkType::Inline,
        LinkKind::Reference => LinkType::Reference,
        LinkKind::ReferenceUnknown => LinkType::ReferenceUnknown,
        LinkKind::Collapsed => LinkType::Collapsed,
        LinkKind::CollapsedUnknown => LinkType::CollapsedUnknown,
        LinkKind::Shortcut => LinkType::Shortcut,
        LinkKind::ShortcutUnknown => LinkType::ShortcutUnknown,
        LinkKind::Autolink => LinkType::Autolink,
        LinkKind::Email => LinkType::Email,
    }
}

/// Converts a `pulldown_cmark::Event`: the start of a link is laid open,
/// any other event is kept as it is.
#[verifier::external_body]
fn markup_of_event<'a>(event: Event<'a>) -> Markup<'a> {
    match event {
        Event::Start(Tag::Link(link_type, dest, title)) => Markup::LinkStart {
            kind: link_kind(link_type),
            dest: dest.into_string(),
            title: title.into_string(),
        },
        other => Markup::Other(other),
    }
}

/// Converts back to a `pulldown_cmark::Event`.
#[verifier::external_body]
fn event_of_markup<'a>(markup: Markup<'a>) -> Event<'a> {
    match markup {
        Markup::LinkStart { kind, dest, title } => Event::Start(
            Tag::Link(link_type(kind), CowStr::from(dest), CowStr::from(title)),
        ),
        Markup::Other(event) => event,
    }
}

/// `pulldown_cmark::Parser::new_with_broken_link_callback`, with every
/// extension switched on and [`handle_broken_link`] as the callback: the
/// events of the whole text, in order.
#[verifier::external_body]
fn parse_markup<'a>(text: &'a str) -> (events: Vec<Markup<'a>>)
    ensures
        markup_views(events@) == parsed_markup(text@),
{
    let mut resolve = |link: BrokenLink<'_>| {
        handle_broken_link(&link.reference).map(|(url, title)| (CowStr::from(url), CowStr::from(title)))
    };
    Parser::new_with_broken_link_callback(text, Options::all(), Some(&mut resolve))
        .map(markup_of_event)
        .collect()
}

/// `pulldown_cmark::html::push_html`, on an empty string: the HTML for
/// the given events.
#[verifier::external_body]
fn render_html<'a>(events: Vec<Markup<'a>>) -> (html: String)
    ensures
        html@ == rendered_html(markup_views(events@)),
{
    let mut out = String::new();
    html::push_html(&mut out, events.into_iter().map(event_of_markup));
    out
}

/// Renders Markdown to HTML. The text is parsed, the target of every
/// reference link without a definition becomes the route of the document
/// that its label names, and the events are serialised. Links with an
/// inline target and references with a definition are not touched.
pub fn custom_md(text: &str) -> (html: String)
    ensures
        html@ == rendered_html(
            parsed_markup(text@).map_values(|m: MarkupView<'static>| rewritten(m)),
        ),
{
    render_html(rewrite_links(parse_markup(text)))
}

} // verus!
