//! The layout that span and event records share: indentation, the
//! separator between the fields of a record, and the lines for the time,
//! the target, the source location and the named fields.
use crate::fields::{fields_view, Field, FieldView};
use crate::format::PrettyFormatOptions;
use crate::markup::{doc_view, Part, PartView, Segment, SegmentView, Style};
use crate::text::{blank, decimal, decimal_string, spaces};
use vstd::prelude::*;
use vstd::string::StringExecFns;

verus! {

/// A part without style.
pub open spec fn text_part(text: Seq<char>) -> PartView {
    PartView { style: Style::Plain, text }
}

/// A part in a style.
pub open spec fn styled_part(style: Style, text: Seq<char>) -> PartView {
    PartView { style, text }
}

/// A segment that holds unstyled text and nothing else.
pub open spec fn text_segment(text: Seq<char>) -> SegmentView {
    SegmentView { wrap: Style::Plain, parts: seq![text_part(text)] }
}

/// The indentation of a record at nesting depth `level`: one unit per level
/// when trees are printed as a whole, none when lines are streamed.
pub open spec fn tree_indent(opts: PrettyFormatOptions, level: nat) -> nat {
    if opts.wrapped {
        (level * opts.indent) as nat
    } else {
        0
    }
}

/// The indentation of a record's fields fits the machine's word.
pub open spec fn indent_fits(opts: PrettyFormatOptions, level: nat) -> bool {
    tree_indent(opts, level) + opts.indent <= usize::MAX
}

/// What stands between the fields of a record: a single space on one
/// line, else a line break and the indentation of the fields, one unit
/// deeper than the record.
pub open spec fn separator(opts: PrettyFormatOptions, level: nat) -> Seq<char> {
    if opts.oneline {
        " "@
    } else {
        "\n"@ + spaces((tree_indent(opts, level) + opts.indent) as nat)
    }
}

/// A dimmed `label: value`, the label in italics.
pub open spec fn labelled(label: Seq<char>, value: Seq<char>) -> SegmentView {
    SegmentView {
        wrap: Style::Dimmed,
        parts: seq![styled_part(Style::Italic, label), text_part(": "@), text_part(value)],
    }
}

/// One field of a record's own: the separator, then a dimmed `label: value`.
pub open spec fn field_line(sep: Seq<char>, label: Seq<char>, value: Seq<char>) -> Seq<
    SegmentView,
> {
    seq![text_segment(sep), labelled(label, value)]
}

/// `line` if it is shown, else nothing.
pub open spec fn shown(show: bool, line: Seq<SegmentView>) -> Seq<SegmentView> {
    if show {
        line
    } else {
        Seq::empty()
    }
}

/// A file and a line in it.
pub open spec fn location(file: Seq<char>, line: nat) -> Seq<char> {
    file + ":"@ + decimal(line)
}

/// One named field: the separator, then `name=value`, the name in italics.
pub open spec fn field_segment(sep: Seq<char>, field: FieldView) -> SegmentView {
    SegmentView {
        wrap: Style::Plain,
        parts: seq![
            text_part(sep),
            styled_part(Style::Italic, field.name),
            text_part("="@),
            text_part(field.value),
        ],
    }
}

/// The named fields of a record, in their order.
pub open spec fn fields_lines(sep: Seq<char>, fields: Seq<FieldView>) -> Seq<SegmentView> {
    Seq::new(fields.len(), |i: int| field_segment(sep, fields[i]))
}

/// Makes an unstyled part.
pub fn plain_part(text: &str) -> (r: Part)
    ensures
        r@ == text_part(text@),
{
    Part { style: Style::Plain, text: text.to_owned() }
}

/// Makes a styled part.
pub fn part_in(style: Style, text: &str) -> (r: Part)
    ensures
        r@ == styled_part(style, text@),
{
    Part { style, text: text.to_owned() }
}

/// Tells whether a record at depth `level` can be indented within the
/// machine's word.
pub fn level_fits(opts: &PrettyFormatOptions, level: usize) -> (r: bool)
    ensures
        r == indent_fits(*opts, level as nat),
{
    if opts.wrapped {
        match level.checked_mul(opts.indent) {
            Some(indent) => indent.checked_add(opts.indent).is_some(),
            None => {
                assert(level * opts.indent + opts.indent > usize::MAX);
                false
            },
        }
    } else {
        true
    }
}

/// Computes the indentation of a record at depth `level`.
pub fn indent_of(opts: &PrettyFormatOptions, level: usize) -> (r: usize)
    requires
        indent_fits(*opts, level as nat),
    ensures
        r == tree_indent(*opts, level as nat),
{
    if opts.wrapped {
        level * opts.indent
    } else {
        0
    }
}

/// Builds the separator between the fields of a record at depth `level`.
pub fn separator_text(opts: &PrettyFormatOptions, level: usize) -> (r: String)
    requires
        indent_fits(*opts, level as nat),
    ensures
        r@ == separator(*opts, level as nat),
{
    if opts.oneline {
        " ".to_owned()
    } else {
        let mut sep = "\n".to_owned();
        let fill = blank(indent_of(opts, level) + opts.indent);
        sep.append(fill.as_str());
        sep
    }
}

/// Builds the text of a file and a line in it.
pub fn location_text(file: &str, line: u32) -> (r: String)
    ensures
        r@ == location(file@, line as nat),
{
    let mut out = file.to_owned();
    out.append(":");
    let number = decimal_string(line as u128);
    out.append(number.as_str());
    out
}

/// Appends an unstyled text to a document.
pub fn push_text(doc: &mut Vec<Segment>, text: &str)
    ensures
        doc_view(final(doc)@) == doc_view(old(doc)@).push(text_segment(text@)),
{
    let mut parts: Vec<Part> = Vec::new();
    parts.push(plain_part(text));
    let segment = Segment { wrap: Style::Plain, parts };
    assert(segment@.parts =~= seq![text_part(text@)]);
    assert(doc_view(doc@.push(segment)) =~= doc_view(doc@).push(segment@));
    doc.push(segment);
}

/// Appends one field of a record's own to a document.
pub fn push_field_line(doc: &mut Vec<Segment>, sep: &str, label: &str, value: &str)
    ensures
        doc_view(final(doc)@) == doc_view(old(doc)@) + field_line(sep@, label@, value@),
{
    let ghost before = doc_view(doc@);
    push_text(doc, sep);
    let mut parts: Vec<Part> = Vec::new();
    parts.push(part_in(Style::Italic, label));
    parts.push(plain_part(": "));
    parts.push(plain_part(value));
    let segment = Segment { wrap: Style::Dimmed, parts };
    assert(segment@.parts =~= labelled(label@, value@).parts);
    assert(doc_view(doc@.push(segment)) =~= doc_view(doc@).push(segment@));
    doc.push(segment);
    assert(doc_view(doc@) =~= before + field_line(sep@, label@, value@));
}

/// Appends the named fields of a record to a document.
pub fn push_fields(doc: &mut Vec<Segment>, sep: &str, fields: &Vec<Field>)
    ensures
        doc_view(final(doc)@) == doc_view(old(doc)@) + fields_lines(sep@, fields_view(fields@)),
{
    let ghost before = doc_view(doc@);
    let ghost lines = fields_lines(sep@, fields_view(fields@));
    let mut i: usize = 0;
    assert(doc_view(doc@) =~= before + lines.take(0));
    while i < fields.len()
        invariant
            i <= fields.len(),
            lines == fields_lines(sep@, fields_view(fields@)),
            doc_view(doc@) == before + lines.take(i as int),
        decreases fields.len() - i,
    {
        let field = &fields[i];
        let mut parts: Vec<Part> = Vec::new();
        parts.push(plain_part(sep));
        parts.push(part_in(Style::Italic, field.name.as_str()));
        parts.push(plain_part("="));
        parts.push(plain_part(field.value.as_str()));
        let segment = Segment { wrap: Style::Plain, parts };
        assert(segment@.parts =~= field_segment(sep@, field@).parts);
        assert(segment@ == lines[i as int]);
        assert(doc_view(doc@.push(segment)) =~= doc_view(doc@).push(segment@));
        doc.push(segment);
        assert(doc_view(doc@) =~= before + lines.take(i + 1));
        i = i + 1;
    }
    assert(lines.take(i as int) =~= lines);
}

} // verus!
