//! Span records and event records, and how each is rendered.
use crate::clock::{
    elapsed_micros, fails_to_stamp, is_timestamp, timestamp, usable, RenderError,
};
use crate::fields::FieldMap;
use crate::format::PrettyFormatOptions;
use crate::layout::{
    field_line, fields_lines, indent_fits, indent_of, location, location_text, part_in, plain_part,
    push_field_line, push_fields, push_text, separator, separator_text, shown, styled_part,
    text_part, text_segment, tree_indent,
};
use crate::markup::{
    doc_view, emit, is_rendering, lemma_plain_parts_hold_part, lemma_plain_text_holds_segment,
    plain_text, Part, Segment, SegmentView, Style,
};
use crate::text::{blank, decimal, decimal_string, pad_right, padded, spaces};
use vstd::prelude::*;
use vstd::string::StrSliceExecFns;
use vstd::string::StringExecFns;
use vstd::utf8::encode_utf8;

verus! {

/// The severity of an event.
#[derive(Clone, Copy, Debug, PartialEq, Eq, Structural)]
pub enum Level {
    Trace,
    Debug,
    Info,
    Warn,
    Error,
}

/// The name a level is printed under.
pub open spec fn level_name(level: Level) -> Seq<char> {
    match level {
        Level::Trace => "TRACE"@,
        Level::Debug => "DEBUG"@,
        Level::Info => "INFO"@,
        Level::Warn => "WARN"@,
        Level::Error => "ERROR"@,
    }
}

/// The colour a level is printed in.
pub open spec fn level_style(level: Level) -> Style {
    match level {
        Level::Trace => Style::Magenta,
        Level::Debug => Style::Blue,
        Level::Info => Style::Green,
        Level::Warn => Style::Yellow,
        Level::Error => Style::Red,
    }
}

/// An event as it was observed: a leaf of the trace tree.
#[derive(Debug)]
pub struct EventRecord {
    pub level: Level,
    pub target: String,
    pub file: String,
    pub line: u32,
    pub message: String,
    /// The fields of the event other than its message.
    pub meta_fields: FieldMap,
    /// The span that was active when the event was observed: the depth at
    /// which the event is printed, the span's id and its name.
    pub span: Option<(usize, u64, String)>,
}

/// A span: a node of the trace tree.
#[derive(Debug)]
pub struct SpanExtRecord {
    /// The depth of the span: 0 for a root, one more than the parent's else.
    pub tree_level: usize,
    pub id: u64,
    /// The id of the parent span, if there is one.
    pub parent: Option<u64>,
    pub name: String,
    pub target: String,
    pub file: String,
    pub line: u32,
    /// The attributes that the span was created with.
    pub attrs: FieldMap,
    /// When the span was created.
    pub entered: std::time::Instant,
    /// The events observed while the span was active, oldest first.
    pub events: Vec<EventRecord>,
    /// The child spans that have closed, in the order in which they closed.
    pub children: Vec<SpanExtRecord>,
}

/// The first segment of a span line: indentation, the marker of a
/// streamed line, and the title in magenta.
pub open spec fn span_head(
    opts: PrettyFormatOptions,
    level: nat,
    marker: Seq<char>,
    title: Seq<char>,
) -> SegmentView {
    SegmentView {
        wrap: Style::Plain,
        parts: seq![
            text_part(spaces(tree_indent(opts, level))),
            text_part(
                if opts.wrapped {
                    Seq::empty()
                } else {
                    padded(marker, opts.indent as nat)
                },
            ),
            styled_part(Style::Magenta, title),
        ],
    }
}

/// The entry line-group of a span, with `time` as the timestamp.
pub open spec fn span_entry_layout(
    span: SpanExtRecord,
    opts: PrettyFormatOptions,
    time: Seq<char>,
) -> Seq<SegmentView> {
    let level = span.tree_level as nat;
    let sep = separator(opts, level);
    seq![span_head(opts, level, "-->"@, "{"@ + span.name@ + "}"@)] + shown(
        opts.show_time,
        field_line(sep, "time"@, time),
    ) + shown(opts.show_span_info, field_line(sep, "span.id"@, decimal(span.id as nat))) + shown(
        opts.show_target,
        field_line(sep, "target"@, span.target@),
    ) + shown(
        opts.show_file_info,
        field_line(sep, "file"@, location(span.file@, span.line as nat)),
    ) + fields_lines(sep, span.attrs@)
}

/// The dimmed `(id=..)` of an exit line.
pub open spec fn exit_id(id: nat) -> Seq<SegmentView> {
    seq![
        text_segment(" "@),
        SegmentView {
            wrap: Style::Dimmed,
            parts: seq![
                text_part("("@),
                styled_part(Style::Italic, "id"@),
                text_part("="@),
                text_part(decimal(id)),
                text_part(")"@),
            ],
        },
    ]
}

/// The dimmed duration of an exit line, in microseconds.
pub open spec fn exit_duration(micros: nat) -> Seq<SegmentView> {
    seq![
        text_segment(" "@),
        SegmentView {
            wrap: Style::Dimmed,
            parts: seq![text_part(decimal(micros)), text_part("us"@)],
        },
    ]
}

/// The exit line-group of a span that took `micros` microseconds.
pub open spec fn span_exit_layout(
    span: SpanExtRecord,
    opts: PrettyFormatOptions,
    micros: nat,
) -> Seq<SegmentView> {
    seq![span_head(opts, span.tree_level as nat, "<--"@, "!{"@ + span.name@ + "}"@)] + shown(
        opts.show_span_info,
        exit_id(span.id as nat),
    ) + exit_duration(micros)
}

/// The depth at which an event is printed: that of its span, or 0.
pub open spec fn event_level(event: EventRecord) -> nat {
    match event.span {
        Some(span) => span.0 as nat,
        None => 0,
    }
}

/// The first segment of an event: indentation, the level padded to one
/// unit of indentation and in its colour, and the message.
pub open spec fn event_head(event: EventRecord, opts: PrettyFormatOptions) -> SegmentView {
    SegmentView {
        wrap: Style::Plain,
        parts: seq![
            text_part(spaces(tree_indent(opts, event_level(event)))),
            styled_part(level_style(event.level), padded(level_name(event.level), opts.indent as nat)),
            text_part(event.message@),
        ],
    }
}

/// The span of an event: its id as a field, then its name, dimmed, the
/// name itself in a colour of its own.
pub open spec fn event_span_lines(sep: Seq<char>, id: nat, name: Seq<char>) -> Seq<SegmentView> {
    field_line(sep, "span.id"@, decimal(id)).push(
        SegmentView {
            wrap: Style::Dimmed,
            parts: seq![
                text_part(sep),
                styled_part(Style::ItalicDimmed, "span.name"@),
                styled_part(Style::Dimmed, ":"@),
                text_part(" "@),
                styled_part(Style::TrueColor(191, 160, 217), name),
            ],
        },
    )
}

/// The span lines of an event, where it has a span and they are shown.
pub open spec fn event_span_layout(
    event: EventRecord,
    opts: PrettyFormatOptions,
    sep: Seq<char>,
) -> Seq<SegmentView> {
    match event.span {
        Some(span) if opts.show_span_info => event_span_lines(sep, span.1 as nat, span.2@),
        _ => Seq::empty(),
    }
}

/// The line-group of an event, with `time` as the timestamp.
pub open spec fn event_layout(event: EventRecord, opts: PrettyFormatOptions, time: Seq<char>) -> Seq<
    SegmentView,
> {
    let sep = separator(opts, event_level(event));
    seq![event_head(event, opts)] + shown(opts.show_time, field_line(sep, "time"@, time))
        + event_span_layout(event, opts, sep) + shown(
        opts.show_target,
        field_line(sep, "target"@, event.target@),
    ) + shown(
        opts.show_file_info,
        field_line(sep, "file"@, location(event.file@, event.line as nat)),
    ) + fields_lines(sep, event.meta_fields@)
}

/// `bytes` is the UTF-8 text of `doc`, each style applied or left out.
pub open spec fn renders(bytes: Seq<u8>, doc: Seq<SegmentView>) -> bool {
    exists|text: Seq<char>| is_rendering(text, doc) && bytes == encode_utf8(text)
}

/// `time` can stand as the timestamp of a record: where the time is
/// shown, it is some instant written in the layout of the options.
pub open spec fn timed(opts: PrettyFormatOptions, time: Seq<char>) -> bool {
    opts.show_time ==> is_timestamp(time, opts.time_format@)
}

/// `bytes` is an entry line-group of `span`, at some time of day: empty
/// where only events are shown, and never empty else.
pub open spec fn is_span_entry(bytes: Seq<u8>, span: SpanExtRecord, opts: PrettyFormatOptions) -> bool {
    if opts.events_only {
        bytes == Seq::<u8>::empty()
    } else {
        &&& bytes.len() > 0
        &&& exists|time: Seq<char>|
            timed(opts, time) && renders(bytes, #[trigger] span_entry_layout(span, opts, time))
    }
}

/// `bytes` is an exit line-group of `span`, after some duration: empty
/// where only events are shown, and never empty else.
pub open spec fn is_span_exit(bytes: Seq<u8>, span: SpanExtRecord, opts: PrettyFormatOptions) -> bool {
    if opts.events_only {
        bytes == Seq::<u8>::empty()
    } else {
        &&& bytes.len() > 0
        &&& exists|micros: nat| renders(bytes, span_exit_layout(span, opts, micros))
    }
}

/// `bytes` is a line-group of `event`, at some time of day. It is never
/// empty.
pub open spec fn is_event(bytes: Seq<u8>, event: EventRecord, opts: PrettyFormatOptions) -> bool {
    &&& bytes.len() > 0
    &&& exists|time: Seq<char>|
        timed(opts, time) && renders(bytes, #[trigger] event_layout(event, opts, time))
}

/// No text takes fewer bytes than it has characters.
pub proof fn lemma_encoded_len(text: Seq<char>)
    ensures
        encode_utf8(text).len() >= text.len(),
    decreases text.len(),
{
    if text.len() > 0 {
        lemma_encoded_len(text.drop_first());
    }
}

/// Writes a document out as bytes, applying its styles. Styling only
/// adds to the text.
pub fn write_out(doc: &Vec<Segment>) -> (bytes: Vec<u8>)
    ensures
        renders(bytes@, doc_view(doc@)),
        bytes@.len() >= plain_text(doc_view(doc@)).len(),
{
    let text = emit(doc);
    proof {
        lemma_encoded_len(text@);
    }
    text.as_str().as_bytes_vec()
}

/// A span line holds at least the bracket that closes its title.
proof fn lemma_span_line_not_empty(
    doc: Seq<SegmentView>,
    opts: PrettyFormatOptions,
    level: nat,
    marker: Seq<char>,
    title: Seq<char>,
)
    requires
        doc.len() > 0,
        doc[0] == span_head(opts, level, marker, title + "}"@),
    ensures
        plain_text(doc).len() > 0,
{
    reveal_strlit("}");
    lemma_plain_text_holds_segment(doc, 0);
    lemma_plain_parts_hold_part(doc[0].parts, 2);
}

/// An event line holds at least the name of its level.
proof fn lemma_event_line_not_empty(doc: Seq<SegmentView>, event: EventRecord, opts: PrettyFormatOptions)
    requires
        doc.len() > 0,
        doc[0] == event_head(event, opts),
    ensures
        plain_text(doc).len() > 0,
{
    reveal_strlit("TRACE");
    reveal_strlit("DEBUG");
    reveal_strlit("INFO");
    reveal_strlit("WARN");
    reveal_strlit("ERROR");
    lemma_plain_text_holds_segment(doc, 0);
    lemma_plain_parts_hold_part(doc[0].parts, 1);
}

fn head_segment(
    opts: &PrettyFormatOptions,
    level: usize,
    marker: &str,
    open: &str,
    name: &str,
) -> (r: Segment)
    requires
        indent_fits(*opts, level as nat),
    ensures
        r@ == span_head(*opts, level as nat, marker@, open@ + name@ + "}"@),
{
    let mut parts: Vec<Part> = Vec::new();
    let indent = blank(indent_of(opts, level));
    parts.push(plain_part(indent.as_str()));
    if opts.wrapped {
        let none = String::new();
        parts.push(plain_part(none.as_str()));
    } else {
        let arrow = pad_right(marker, opts.indent);
        parts.push(plain_part(arrow.as_str()));
    }
    let mut title = open.to_owned();
    title.append(name);
    title.append("}");
    parts.push(part_in(Style::Magenta, title.as_str()));
    let segment = Segment { wrap: Style::Plain, parts };
    assert(segment@.parts =~= span_head(*opts, level as nat, marker@, open@ + name@ + "}"@).parts);
    segment
}

impl SpanExtRecord {
    /// Lays out the entry line-group of the span, with `time` as the
    /// timestamp.
    pub fn span_entry_doc(&self, opts: &PrettyFormatOptions, time: &str) -> (doc: Vec<Segment>)
        requires
            indent_fits(*opts, self.tree_level as nat),
        ensures
            doc_view(doc@) == span_entry_layout(*self, *opts, time@),
    {
        let mut doc: Vec<Segment> = Vec::new();
        let head = head_segment(opts, self.tree_level, "-->", "{", self.name.as_str());
        assert(doc_view(doc@.push(head)) =~= seq![head@]);
        doc.push(head);
        let sep = separator_text(opts, self.tree_level);
        if opts.show_time {
            push_field_line(&mut doc, sep.as_str(), "time", time);
        }
        if opts.show_span_info {
            let id = decimal_string(self.id as u128);
            push_field_line(&mut doc, sep.as_str(), "span.id", id.as_str());
        }
        if opts.show_target {
            push_field_line(&mut doc, sep.as_str(), "target", self.target.as_str());
        }
        if opts.show_file_info {
            let place = location_text(self.file.as_str(), self.line);
            push_field_line(&mut doc, sep.as_str(), "file", place.as_str());
        }
        push_fields(&mut doc, sep.as_str(), self.attrs.entries());
        assert(doc_view(doc@) =~= span_entry_layout(*self, *opts, time@));
        doc
    }

    /// Lays out the exit line-group of the span, `micros` microseconds
    /// after it was created.
    pub fn span_exit_doc(&self, opts: &PrettyFormatOptions, micros: u128) -> (doc: Vec<Segment>)
        requires
            indent_fits(*opts, self.tree_level as nat),
        ensures
            doc_view(doc@) == span_exit_layout(*self, *opts, micros as nat),
    {
        let mut doc: Vec<Segment> = Vec::new();
        let head = head_segment(opts, self.tree_level, "<--", "!{", self.name.as_str());
        assert(doc_view(doc@.push(head)) =~= seq![head@]);
        doc.push(head);
        if opts.show_span_info {
            push_text(&mut doc, " ");
            let id = decimal_string(self.id as u128);
            let mut parts: Vec<Part> = Vec::new();
            parts.push(plain_part("("));
            parts.push(part_in(Style::Italic, "id"));
            parts.push(plain_part("="));
            parts.push(plain_part(id.as_str()));
            parts.push(plain_part(")"));
            let segment = Segment { wrap: Style::Dimmed, parts };
            assert(segment@.parts =~= exit_id(self.id as nat)[1].parts);
            assert(doc_view(doc@.push(segment)) =~= doc_view(doc@).push(segment@));
            doc.push(segment);
        }
        push_text(&mut doc, " ");
        let took = decimal_string(micros);
        let mut parts: Vec<Part> = Vec::new();
        parts.push(plain_part(took.as_str()));
        parts.push(plain_part("us"));
        let segment = Segment { wrap: Style::Dimmed, parts };
        assert(segment@.parts =~= exit_duration(micros as nat)[1].parts);
        assert(doc_view(doc@.push(segment)) =~= doc_view(doc@).push(segment@));
        doc.push(segment);
        assert(doc_view(doc@) =~= span_exit_layout(*self, *opts, micros as nat));
        doc
    }

    /// Serializes the entry of the span: nothing where only events are
    /// shown, else the entry line-group at the current time of day.
    pub fn serialize_span_entry(&self, opts: &PrettyFormatOptions) -> (r: Result<
        Vec<u8>,
        RenderError,
    >)
        requires
            opts.events_only || indent_fits(*opts, self.tree_level as nat),
        ensures
            opts.events_only || !opts.show_time ==> r is Ok,
            r matches Ok(bytes) ==> is_span_entry(bytes@, *self, *opts),
            r is Err ==> fails_to_stamp(opts.time_format@),
            !opts.events_only && opts.show_time && !usable(opts.time_format@) ==> r is Err,
    {
        if opts.events_only {
            return Ok(Vec::new());
        }
        let time = if opts.show_time {
            match timestamp(opts.time_format.as_str()) {
                Ok(text) => text,
                Err(error) => {
                    return Err(error);
                },
            }
        } else {
            String::new()
        };
        assert(timed(*opts, time@));
        let doc = self.span_entry_doc(opts, time.as_str());
        proof {
            lemma_span_line_not_empty(
                doc_view(doc@),
                *opts,
                self.tree_level as nat,
                "-->"@,
                "{"@ + self.name@,
            );
        }
        Ok(write_out(&doc))
    }

    /// Serializes the exit of the span: nothing where only events are
    /// shown, else the exit line-group with the time since the span was
    /// created.
    pub fn serialize_span_exit(&self, opts: &PrettyFormatOptions) -> (bytes: Vec<u8>)
        requires
            opts.events_only || indent_fits(*opts, self.tree_level as nat),
        ensures
            is_span_exit(bytes@, *self, *opts),
    {
        if opts.events_only {
            return Vec::new();
        }
        let micros = elapsed_micros(&self.entered);
        let doc = self.span_exit_doc(opts, micros);
        proof {
            lemma_span_line_not_empty(
                doc_view(doc@),
                *opts,
                self.tree_level as nat,
                "<--"@,
                "!{"@ + self.name@,
            );
        }
        write_out(&doc)
    }
}

impl Level {
    /// The name of the level, padded to `width` characters.
    pub fn padded_name(self, width: usize) -> (r: String)
        ensures
            r@ == padded(level_name(self), width as nat),
    {
        match self {
            Level::Trace => pad_right("TRACE", width),
            Level::Debug => pad_right("DEBUG", width),
            Level::Info => pad_right("INFO", width),
            Level::Warn => pad_right("WARN", width),
            Level::Error => pad_right("ERROR", width),
        }
    }

    /// The colour of the level.
    pub fn style(self) -> (r: Style)
        ensures
            r == level_style(self),
    {
        match self {
            Level::Trace => Style::Magenta,
            Level::Debug => Style::Blue,
            Level::Info => Style::Green,
            Level::Warn => Style::Yellow,
            Level::Error => Style::Red,
        }
    }
}

impl EventRecord {
    /// The depth at which the event is printed.
    pub fn level_in_tree(&self) -> (r: usize)
        ensures
            r == event_level(*self),
    {
        match &self.span {
            Some(span) => span.0,
            None => 0,
        }
    }

    /// Lays out the line-group of the event, with `time` as the timestamp.
    pub fn event_doc(&self, opts: &PrettyFormatOptions, time: &str) -> (doc: Vec<Segment>)
        requires
            indent_fits(*opts, event_level(*self)),
        ensures
            doc_view(doc@) == event_layout(*self, *opts, time@),
    {
        let depth = self.level_in_tree();
        let mut doc: Vec<Segment> = Vec::new();
        let mut parts: Vec<Part> = Vec::new();
        let indent = blank(indent_of(opts, depth));
        parts.push(plain_part(indent.as_str()));
        let level = self.level.padded_name(opts.indent);
        parts.push(part_in(self.level.style(), level.as_str()));
        parts.push(plain_part(self.message.as_str()));
        let head = Segment { wrap: Style::Plain, parts };
        assert(head@.parts =~= event_head(*self, *opts).parts);
        assert(doc_view(doc@.push(head)) =~= seq![head@]);
        doc.push(head);
        let sep = separator_text(opts, depth);
        if opts.show_time {
            push_field_line(&mut doc, sep.as_str(), "time", time);
        }
        if opts.show_span_info {
            match &self.span {
                Some(span) => {
                    let id = decimal_string(span.1 as u128);
                    push_field_line(&mut doc, sep.as_str(), "span.id", id.as_str());
                    let mut parts: Vec<Part> = Vec::new();
                    parts.push(plain_part(sep.as_str()));
                    parts.push(part_in(Style::ItalicDimmed, "span.name"));
                    parts.push(part_in(Style::Dimmed, ":"));
                    parts.push(plain_part(" "));
                    parts.push(part_in(Style::TrueColor(191, 160, 217), span.2.as_str()));
                    let segment = Segment { wrap: Style::Dimmed, parts };
                    assert(segment@.parts =~= event_span_lines(
                        sep@,
                        span.1 as nat,
                        span.2@,
                    ).last().parts);
                    assert(doc_view(doc@.push(segment)) =~= doc_view(doc@).push(segment@));
                    doc.push(segment);
                },
                None => {},
            }
        }
        if opts.show_target {
            push_field_line(&mut doc, sep.as_str(), "target", self.target.as_str());
        }
        if opts.show_file_info {
            let place = location_text(self.file.as_str(), self.line);
            push_field_line(&mut doc, sep.as_str(), "file", place.as_str());
        }
        push_fields(&mut doc, sep.as_str(), self.meta_fields.entries());
        assert(doc_view(doc@) =~= event_layout(*self, *opts, time@));
        doc
    }

    /// Serializes the event: its line-group at the current time of day.
    pub fn serialize(&self, opts: &PrettyFormatOptions) -> (r: Result<Vec<u8>, RenderError>)
        requires
            indent_fits(*opts, event_level(*self)),
        ensures
            !opts.show_time ==> r is Ok,
            r matches Ok(bytes) ==> is_event(bytes@, *self, *opts),
            r is Err ==> fails_to_stamp(opts.time_format@),
            opts.show_time && !usable(opts.time_format@) ==> r is Err,
    {
        let time = if opts.show_time {
            match timestamp(opts.time_format.as_str()) {
                Ok(text) => text,
                Err(error) => {
                    return Err(error);
                },
            }
        } else {
            String::new()
        };
        assert(timed(*opts, time@));
        let doc = self.event_doc(opts, time.as_str());
        proof {
            lemma_event_line_not_empty(doc_view(doc@), *self, *opts);
        }
        Ok(write_out(&doc))
    }
}

} // verus!
