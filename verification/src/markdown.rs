//! The events of a Markdown document, each with the line it starts on.
use vstd::prelude::*;
use pulldown_cmark::{Options, Parser};
use vstd::string::StringSliceAdditionalSpecFns;

verus! {

#[verifier::external_type_specification]
#[verifier::external_body]
pub struct ExMdEvent<'a>(pulldown_cmark::Event<'a>);

/// One event of pulldown-cmark's parse of a text, with the text parsed and
/// the event's place in the parse: which event of which parse it is. Made
/// only by `parse_markdown`.
pub struct MdEvent<'a> {
    pub event: pulldown_cmark::Event<'a>,
    source: Ghost<Seq<char>>,
    index: Ghost<nat>,
}

impl<'a> View for MdEvent<'a> {
    type V = (Seq<char>, nat);

    /// The text whose parse the event is from, and its index in that parse.
    closed spec fn view(&self) -> (Seq<char>, nat) {
        (self.source@, self.index@)
    }
}

/// The events of the parse of `text`, each as (text, index).
pub open spec fn markdown_events(text: Seq<char>) -> Seq<(Seq<char>, nat)> {
    Seq::new(markdown_starts(text).len(), |i: int| (text, i as nat))
}

pub open spec fn md_events_view<'a>(v: Seq<MdEvent<'a>>) -> Seq<(Seq<char>, nat)> {
    v.map_values(|e: MdEvent<'a>| e@)
}

/// The byte offset in `text` where the source of each event of
/// pulldown-cmark's parse of `text` (with the options of `parse_markdown`)
/// starts, in event order. The parse depends on the text alone.
pub uninterp spec fn markdown_starts(text: Seq<char>) -> Seq<usize>;

/// `pulldown_cmark::Parser::new_ext` with tables, strikethrough, task lists,
/// math, smart punctuation, footnotes, definition lists, YAML and `+++`
/// metadata blocks and GFM, read with `into_offset_iter`: every event, in
/// order, marked with the text and its index, and the start of its byte
/// range. What an event holds is pulldown-cmark's value and is not stated.
#[verifier::external_body]
fn parse_markdown<'a>(text: &'a str) -> (r: (Vec<MdEvent<'a>>, Vec<usize>))
    ensures
        md_events_view(r.0@) == markdown_events(text@),
        r.1@ == markdown_starts(text@),
{
    let o = Options::ENABLE_TABLES | Options::ENABLE_STRIKETHROUGH | Options::ENABLE_TASKLISTS
        | Options::ENABLE_MATH | Options::ENABLE_SMART_PUNCTUATION | Options::ENABLE_FOOTNOTES
        | Options::ENABLE_DEFINITION_LIST | Options::ENABLE_YAML_STYLE_METADATA_BLOCKS
        | Options::ENABLE_PLUSES_DELIMITED_METADATA_BLOCKS | Options::ENABLE_GFM;
    let events = Parser::new_ext(text, o).into_offset_iter().enumerate();
    events.map(|(i, (event, range))| (MdEvent { event, source: Ghost(text@), index: Ghost(i as nat) }, range.start)).unzip()
}

/// How many of the first `k` bytes are line feeds.
pub open spec fn newlines_before(bytes: Seq<u8>, k: int) -> nat
    decreases k,
{
    if k <= 0 {
        0
    } else {
        newlines_before(bytes, k - 1) + if bytes[k - 1] == 10u8 {
            1nat
        } else {
            0nat
        }
    }
}

/// The line (counting from 1) of the byte at `offset`: one more than the line
/// feeds before it. An offset past the end is on the last line.
pub open spec fn line_at(bytes: Seq<u8>, offset: usize) -> nat {
    1 + newlines_before(bytes, if offset < bytes.len() { offset as int } else { bytes.len() as int })
}

/// The events of a Markdown text, in order, and for each the line
/// (counting from 1) on which its source starts. The lines come from a table
/// of the line of every byte offset, built once, so each event's line is
/// found in constant time. (A text's length is below `usize::MAX` bytes.)
pub fn markdown_event_lines<'a>(text: &'a str) -> (r: (Vec<MdEvent<'a>>, Vec<usize>))
    requires
        text.spec_bytes().len() < usize::MAX,
    ensures
        md_events_view(r.0@) == markdown_events(text@),
        r.1@.len() == markdown_starts(text@).len(),
        forall|i: int|
            0 <= i < r.1@.len() ==> #[trigger] r.1@[i] == line_at(text.spec_bytes(), markdown_starts(text@)[i]),
{
    let bytes = text.as_bytes();
    let n = bytes.len();
    let ghost b = bytes@;
    // line_of[k] is the line of byte offset k, for k up to the length.
    let mut line_of: Vec<usize> = Vec::new();
    line_of.push(1);
    let mut k: usize = 0;
    while k < n
        invariant
            k <= n,
            n == b.len(),
            n < usize::MAX,
            b == bytes@,
            line_of@.len() == k + 1,
            forall|q: int| 0 <= q <= k ==> #[trigger] line_of@[q] == 1 + newlines_before(b, q),
            newlines_before(b, k as int) <= k,
        decreases n - k,
    {
        let prev = line_of[k];
        let next = if bytes[k] == 10u8 {
            prev + 1
        } else {
            prev
        };
        line_of.push(next);
        k += 1;
    }
    let (evs, starts) = parse_markdown(text);
    let mut lines: Vec<usize> = Vec::new();
    let mut i: usize = 0;
    while i < starts.len()
        invariant
            i <= starts@.len(),
            starts@ == markdown_starts(text@),
            lines@.len() == i,
            forall|q: int| 0 <= q < i ==> #[trigger] lines@[q] == line_at(b, starts@[q]),
            line_of@.len() == n + 1,
            n == b.len(),
            forall|q: int| 0 <= q <= n ==> #[trigger] line_of@[q] == 1 + newlines_before(b, q),
        decreases starts@.len() - i,
    {
        let start = starts[i];
        let at = if start < n {
            start
        } else {
            n
        };
        lines.push(line_of[at]);
        i += 1;
    }
    (evs, lines)
}

} // verus!
