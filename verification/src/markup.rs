//! Styled text. A rendered record is first laid out as a list of segments,
//! each a run of parts with an optional style around the whole run; only
//! then are the styles applied, which is the one step that depends on the
//! terminal the process runs in.
use colored::Colorize;
use vstd::prelude::*;
use vstd::string::StringExecFns;

verus! {

/// The styles that rendered records use.
#[derive(Clone, Copy, Debug, PartialEq, Eq, Structural)]
pub enum Style {
    /// No styling: the text is written as it is.
    Plain,
    Magenta,
    Blue,
    Green,
    Yellow,
    Red,
    Italic,
    Dimmed,
    /// Italic and dimmed at once.
    ItalicDimmed,
    /// A foreground colour given by its red, green and blue components.
    TrueColor(u8, u8, u8),
}

/// A piece of text with the style it is written in.
#[derive(Debug)]
pub struct Part {
    pub style: Style,
    pub text: String,
}

/// A run of parts, with one style wrapped around the run as a whole.
#[derive(Debug)]
pub struct Segment {
    pub wrap: Style,
    pub parts: Vec<Part>,
}

/// What a [`Part`] stands for.
pub struct PartView {
    pub style: Style,
    pub text: Seq<char>,
}

/// What a [`Segment`] stands for.
pub struct SegmentView {
    pub wrap: Style,
    pub parts: Seq<PartView>,
}

impl View for Part {
    type V = PartView;

    open spec fn view(&self) -> PartView {
        PartView { style: self.style, text: self.text@ }
    }
}

/// The parts of a segment, each by its view.
pub open spec fn parts_view(parts: Seq<Part>) -> Seq<PartView> {
    Seq::new(parts.len(), |i: int| parts[i]@)
}

impl View for Segment {
    type V = SegmentView;

    open spec fn view(&self) -> SegmentView {
        SegmentView { wrap: self.wrap, parts: parts_view(self.parts@) }
    }
}

/// The segments of a document, each by its view.
pub open spec fn doc_view(doc: Seq<Segment>) -> Seq<SegmentView> {
    Seq::new(doc.len(), |i: int| doc[i]@)
}

/// The text that the terminal styling library writes for `text` in `style`
/// when colours are switched on: the text between the escape sequences that
/// start and end the style. `truecolor` says whether the terminal takes
/// colours by their components; where it does not, such a colour is
/// replaced by the nearest of the basic ones.
pub uninterp spec fn ansi_styled(style: Style, text: Seq<char>, truecolor: bool) -> Seq<char>;

/// What the terminal decided for one style: whether it is applied, and
/// whether colours are taken by their components.
pub struct Toggle {
    pub on: bool,
    pub truecolor: bool,
}

/// `text` in `style`, with the styling applied or left out.
pub open spec fn painted(style: Style, text: Seq<char>, choice: Toggle) -> Seq<char> {
    if choice.on && style != Style::Plain {
        ansi_styled(style, text, choice.truecolor)
    } else {
        text
    }
}

/// For one segment, what was decided for its styles: the one around the
/// run, and the one of each part.
pub struct Toggles {
    pub wrap: Toggle,
    pub parts: Seq<Toggle>,
}

/// The text of a run of parts under the given choices.
pub open spec fn parts_text(parts: Seq<PartView>, on: Seq<Toggle>) -> Seq<char>
    decreases parts.len(),
{
    if parts.len() == 0 {
        Seq::empty()
    } else {
        parts_text(parts.drop_last(), on.drop_last()) + painted(
            parts.last().style,
            parts.last().text,
            on.last(),
        )
    }
}

/// The text of one segment under the given choices.
pub open spec fn segment_text(segment: SegmentView, on: Toggles) -> Seq<char> {
    painted(segment.wrap, parts_text(segment.parts, on.parts), on.wrap)
}

/// The text of a document under the given choices, one per segment.
pub open spec fn doc_text(doc: Seq<SegmentView>, on: Seq<Toggles>) -> Seq<char>
    decreases doc.len(),
{
    if doc.len() == 0 {
        Seq::empty()
    } else {
        doc_text(doc.drop_last(), on.drop_last()) + segment_text(doc.last(), on.last())
    }
}

/// The choices have the shape of the document.
pub open spec fn toggles_fit(doc: Seq<SegmentView>, on: Seq<Toggles>) -> bool {
    &&& on.len() == doc.len()
    &&& forall|i: int| 0 <= i < doc.len() ==> (#[trigger] on[i]).parts.len() == doc[i].parts.len()
}

/// `text` is the document with each of its styles either applied or left out.
pub open spec fn is_rendering(text: Seq<char>, doc: Seq<SegmentView>) -> bool {
    exists|on: Seq<Toggles>| toggles_fit(doc, on) && text == doc_text(doc, on)
}

/// The text of a run of parts without any styling.
pub open spec fn plain_parts(parts: Seq<PartView>) -> Seq<char>
    decreases parts.len(),
{
    if parts.len() == 0 {
        Seq::empty()
    } else {
        plain_parts(parts.drop_last()) + parts.last().text
    }
}

/// The text of a document without any styling.
pub open spec fn plain_text(doc: Seq<SegmentView>) -> Seq<char>
    decreases doc.len(),
{
    if doc.len() == 0 {
        Seq::empty()
    } else {
        plain_text(doc.drop_last()) + plain_parts(doc.last().parts)
    }
}

/// The plain text of a run of parts holds the text of each part.
pub proof fn lemma_plain_parts_hold_part(parts: Seq<PartView>, j: int)
    requires
        0 <= j < parts.len(),
    ensures
        plain_parts(parts).len() >= parts[j].text.len(),
    decreases parts.len(),
{
    if j < parts.len() - 1 {
        lemma_plain_parts_hold_part(parts.drop_last(), j);
    }
}

/// The plain text of a document holds the text of each segment.
pub proof fn lemma_plain_text_holds_segment(doc: Seq<SegmentView>, i: int)
    requires
        0 <= i < doc.len(),
    ensures
        plain_text(doc).len() >= plain_parts(doc[i].parts).len(),
    decreases doc.len(),
{
    if i < doc.len() - 1 {
        lemma_plain_text_holds_segment(doc.drop_last(), i);
    }
}

/// The choices that leave every style of the document out.
pub open spec fn all_off(doc: Seq<SegmentView>) -> Seq<Toggles> {
    Seq::new(
        doc.len(),
        |i: int|
            Toggles {
                wrap: Toggle { on: false, truecolor: false },
                parts: Seq::new(doc[i].parts.len(), |j: int| Toggle { on: false, truecolor: false }),
            },
    )
}

proof fn lemma_parts_off(parts: Seq<PartView>, on: Seq<Toggle>)
    requires
        on.len() == parts.len(),
        forall|j: int| 0 <= j < on.len() ==> !(#[trigger] on[j]).on,
    ensures
        parts_text(parts, on) == plain_parts(parts),
    decreases parts.len(),
{
    if parts.len() > 0 {
        assert(!on[on.len() - 1].on);
        assert forall|j: int| 0 <= j < on.drop_last().len() implies !(#[trigger] on.drop_last()[
            j
        ]).on by {
            assert(!on[j].on);
        }
        lemma_parts_off(parts.drop_last(), on.drop_last());
    }
}

/// The text without any styling is one of the renderings of a document:
/// the one in which every style is left out.
pub proof fn lemma_plain_is_rendering(doc: Seq<SegmentView>)
    ensures
        toggles_fit(doc, all_off(doc)),
        doc_text(doc, all_off(doc)) == plain_text(doc),
        is_rendering(plain_text(doc), doc),
    decreases doc.len(),
{
    if doc.len() > 0 {
        lemma_plain_is_rendering(doc.drop_last());
        assert(all_off(doc).drop_last() =~= all_off(doc.drop_last()));
        lemma_parts_off(doc.last().parts, all_off(doc).last().parts);
    }
}

/// Formats `text` through `colored` in the given style. Whether `colored`
/// applies a style is decided by the environment of the process (the
/// `NO_COLOR` and `CLICOLOR` variables, whether standard output is a
/// terminal, a manual override): when it does not, the text comes back
/// unchanged. When it does, the result depends on the style, the text and
/// on whether the `COLORTERM` variable announces colours by components;
/// it holds the text between the sequences that start and end the style,
/// so it is no shorter than the text. All this holds as long as nothing
/// changes the decision while the call runs.
#[verifier::external_body]
fn paint(text: &str, style: Style) -> (r: String)
    ensures
        r@ == text@ || r@ == ansi_styled(style, text@, false) || r@ == ansi_styled(
            style,
            text@,
            true,
        ),
        r@.len() >= text@.len(),
{
    let styled = match style {
        Style::Plain => text.normal(),
        Style::Magenta => text.magenta(),
        Style::Blue => text.blue(),
        Style::Green => text.green(),
        Style::Yellow => text.yellow(),
        Style::Red => text.red(),
        Style::Italic => text.italic(),
        Style::Dimmed => text.dimmed(),
        Style::ItalicDimmed => text.italic().dimmed(),
        Style::TrueColor(r, g, b) => text.truecolor(r, g, b),
    };
    styled.to_string()
}

/// Writes `text` in `style`, and records what was decided for the style.
fn paint_tracked(text: &str, style: Style) -> (r: (String, Ghost<Toggle>))
    ensures
        r.0@ == painted(style, text@, r.1@),
        r.0@.len() >= text@.len(),
{
    match style {
        Style::Plain => (text.to_owned(), Ghost(Toggle { on: false, truecolor: false })),
        _ => {
            let out = paint(text, style);
            let ghost choice = Toggle {
                on: out@ != text@,
                truecolor: out@ != ansi_styled(style, text@, false),
            };
            (out, Ghost(choice))
        },
    }
}

/// Writes one segment, applying its styles.
fn emit_segment(segment: &Segment) -> (r: (String, Ghost<Toggles>))
    ensures
        r.1@.parts.len() == segment@.parts.len(),
        r.0@ == segment_text(segment@, r.1@),
        r.0@.len() >= plain_parts(segment@.parts).len(),
{
    let mut inner = String::new();
    let ghost mut on: Seq<Toggle> = Seq::empty();
    let mut i: usize = 0;
    while i < segment.parts.len()
        invariant
            i <= segment.parts.len(),
            on.len() == i,
            inner@ == parts_text(segment@.parts.take(i as int), on),
            inner@.len() >= plain_parts(segment@.parts.take(i as int)).len(),
        decreases segment.parts.len() - i,
    {
        let part = &segment.parts[i];
        let (piece, Ghost(applied)) = paint_tracked(part.text.as_str(), part.style);
        inner.append(piece.as_str());
        proof {
            let next = segment@.parts.take(i + 1);
            assert(next.drop_last() =~= segment@.parts.take(i as int));
            assert(on.push(applied).drop_last() =~= on);
            assert(next.last() == part@);
            on = on.push(applied);
        }
        i = i + 1;
    }
    assert(segment@.parts.take(i as int) =~= segment@.parts);
    let (out, Ghost(wrapped)) = paint_tracked(inner.as_str(), segment.wrap);
    (out, Ghost(Toggles { wrap: wrapped, parts: on }))
}

/// Writes a document, applying its styles. Which styles end up in the text
/// is for the environment to decide, so the result is one of the renderings
/// of the document. Styling only adds to the text.
pub fn emit(doc: &Vec<Segment>) -> (r: String)
    ensures
        is_rendering(r@, doc_view(doc@)),
        r@.len() >= plain_text(doc_view(doc@)).len(),
{
    let mut out = String::new();
    let ghost mut on: Seq<Toggles> = Seq::empty();
    let mut i: usize = 0;
    while i < doc.len()
        invariant
            i <= doc.len(),
            toggles_fit(doc_view(doc@).take(i as int), on),
            out@ == doc_text(doc_view(doc@).take(i as int), on),
            out@.len() >= plain_text(doc_view(doc@).take(i as int)).len(),
        decreases doc.len() - i,
    {
        let (piece, Ghost(chosen)) = emit_segment(&doc[i]);
        out.append(piece.as_str());
        proof {
            let next = doc_view(doc@).take(i + 1);
            assert(next.drop_last() =~= doc_view(doc@).take(i as int));
            assert(on.push(chosen).drop_last() =~= on);
            assert(next.last() == doc[i as int]@);
            on = on.push(chosen);
        }
        i = i + 1;
    }
    assert(doc_view(doc@).take(i as int) =~= doc_view(doc@));
    out
}

/// Writes a document without any styling.
pub fn plain(doc: &Vec<Segment>) -> (r: String)
    ensures
        r@ == plain_text(doc_view(doc@)),
{
    let mut out = String::new();
    let mut i: usize = 0;
    while i < doc.len()
        invariant
            i <= doc.len(),
            out@ == plain_text(doc_view(doc@).take(i as int)),
        decreases doc.len() - i,
    {
        let segment = &doc[i];
        let ghost before = out@;
        let mut j: usize = 0;
        while j < segment.parts.len()
            invariant
                j <= segment.parts.len(),
                out@ == before + plain_parts(segment@.parts.take(j as int)),
            decreases segment.parts.len() - j,
        {
            out.append(segment.parts[j].text.as_str());
            proof {
                let next = segment@.parts.take(j + 1);
                assert(next.drop_last() =~= segment@.parts.take(j as int));
                assert(next.last() == segment.parts[j as int]@);
            }
            j = j + 1;
        }
        proof {
            assert(segment@.parts.take(j as int) =~= segment@.parts);
            let next = doc_view(doc@).take(i + 1);
            assert(next.drop_last() =~= doc_view(doc@).take(i as int));
            assert(next.last() == segment@);
        }
        i = i + 1;
    }
    assert(doc_view(doc@).take(i as int) =~= doc_view(doc@));
    out
}

} // verus!
