//! Rule-tagged spans: the generic parse tree that the grammar produces and the
//! tree builder consumes.

use vstd::prelude::*;

verus! {

/// The grammar rule that a span was matched against.
#[derive(Debug, Clone, Copy, PartialEq, Eq, Hash, Structural)]
pub enum Rule {
    /// The whole document.
    Document,
    /// An element, from the `<` of its start tag to the `>` of its end tag.
    Element,
    /// A start tag, holding the element's name and attributes.
    StartTag,
    /// An end tag, holding the name that closes the element.
    EndTag,
    /// An attribute, holding a key and a value.
    Attribute,
    /// The key of an attribute.
    Key,
    /// The value of an attribute, between its quotes.
    Value,
    /// The name in a start or end tag.
    Name,
    /// Character data between tags.
    Text,
    /// The end of the input.
    EndOfInput,
}

/// A rule-tagged span of the input with its nested matches.
///
/// `start` and `end` count characters of the input. `content` is the character
/// data of a token (with entity references resolved); a span that only groups
/// nested matches has none.
#[derive(Debug, PartialEq)]
pub struct Span {
    pub rule: Rule,
    pub start: usize,
    pub end: usize,
    pub content: String,
    pub children: Vec<Span>,
}

/// The mathematical model of a [`Span`].
pub struct SpanModel {
    pub rule: Rule,
    pub start: int,
    pub end: int,
    pub content: Seq<char>,
    pub children: Seq<SpanModel>,
}

/// The model of a token: a span with character data and no nested matches.
pub open spec fn token(rule: Rule, start: int, end: int, content: Seq<char>) -> SpanModel {
    SpanModel { rule, start, end, content, children: Seq::empty() }
}

/// The model of a group: a span with nested matches and no character data of its own.
pub open spec fn group(rule: Rule, start: int, end: int, children: Seq<SpanModel>) -> SpanModel {
    SpanModel { rule, start, end, content: Seq::empty(), children }
}

/// The models of a list of spans, in the same order.
pub open spec fn spans_view(spans: Seq<Span>) -> Seq<SpanModel> {
    Seq::new(spans.len(), |i: int| spans[i]@)
}

impl View for Span {
    type V = SpanModel;

    open spec fn view(&self) -> SpanModel
        decreases self,
    {
        SpanModel {
            rule: self.rule,
            start: self.start as int,
            end: self.end as int,
            content: self.content@,
            children: Seq::new(
                self.children.len() as nat,
                |i: int|
                    if 0 <= i < self.children.len() {
                        self.children[i]@
                    } else {
                        token(Rule::EndOfInput, 0, 0, Seq::empty())
                    },
            ),
        }
    }
}

/// The nested matches of a span's model are the models of its nested matches.
pub proof fn lemma_span_children(span: &Span)
    ensures
        span@.children == spans_view(span.children@),
        span@.children.len() == span.children.len(),
        forall|i: int| 0 <= i < span.children.len() ==> span@.children[i] == #[trigger] span.children[i]@,
{
}

/// Appending a span appends its model.
pub proof fn lemma_spans_view_push(spans: Seq<Span>, span: Span)
    ensures
        spans_view(spans.push(span)) == spans_view(spans).push(span@),
{
}

impl Span {
    /// A token span.
    pub fn token(rule: Rule, start: usize, end: usize, content: String) -> (span: Span)
        ensures
            span@ == token(rule, start as int, end as int, content@),
    {
        let span = Span { rule, start, end, content, children: Vec::new() };
        proof {
            lemma_span_children(&span);
            assert(span@.children =~= Seq::<SpanModel>::empty());
        }
        span
    }

    /// A span that groups the nested matches `children`.
    pub fn group(rule: Rule, start: usize, end: usize, children: Vec<Span>) -> (span: Span)
        ensures
            span@ == group(rule, start as int, end as int, spans_view(children@)),
    {
        let span = Span { rule, start, end, content: String::new(), children };
        proof {
            lemma_span_children(&span);
        }
        span
    }
}

} // verus!
