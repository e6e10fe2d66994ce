//! The buffered tree: the order in which the records of a completed span
//! tree are printed, and the walk that prints them.
use crate::clock::{fails_to_stamp, usable, RenderError};
use crate::format::{PrettyConsoleLayer, PrettyFormatOptions};
use crate::layout::indent_fits;
use crate::record::{event_level, is_event, is_span_entry, is_span_exit, EventRecord, SpanExtRecord};
use vstd::prelude::*;

verus! {

/// What a line-group shows.
#[derive(Clone, Copy, Debug, PartialEq, Eq, Structural)]
pub enum LineKind {
    SpanEntry,
    SpanExit,
    Event,
}

/// Where a line-group is written.
#[derive(Clone, Copy, Debug, PartialEq, Eq, Structural)]
pub enum Stream {
    Stdout,
    Stderr,
}

/// One rendered record, ready to be written as a line of its own.
#[derive(Debug)]
pub struct LineGroup {
    pub kind: LineKind,
    pub stream: Stream,
    pub bytes: Vec<u8>,
}

/// One step of printing: the record that a line-group shows.
pub enum Step {
    Entry(SpanExtRecord),
    Event(EventRecord),
    Exit(SpanExtRecord),
}

/// `group` shows `step`. Span lines go to standard error, events to
/// `events_to`.
pub open spec fn line_matches(
    group: LineGroup,
    step: Step,
    opts: PrettyFormatOptions,
    events_to: Stream,
) -> bool {
    match step {
        Step::Entry(span) => group.kind == LineKind::SpanEntry && group.stream == Stream::Stderr
            && is_span_entry(group.bytes@, span, opts),
        Step::Event(event) => group.kind == LineKind::Event && group.stream == events_to
            && is_event(group.bytes@, event, opts),
        Step::Exit(span) => group.kind == LineKind::SpanExit && group.stream == Stream::Stderr
            && is_span_exit(group.bytes@, span, opts),
    }
}

/// `out` shows the steps of `plan`, one line-group each, in order.
pub open spec fn matches_plan(
    out: Seq<LineGroup>,
    plan: Seq<Step>,
    opts: PrettyFormatOptions,
    events_to: Stream,
) -> bool {
    &&& out.len() == plan.len()
    &&& forall|i: int|
        0 <= i < out.len() ==> line_matches(#[trigger] out[i], plan[i], opts, events_to)
}

/// Two outputs in a row show two plans in a row.
pub proof fn lemma_matches_concat(
    a: Seq<LineGroup>,
    b: Seq<LineGroup>,
    pa: Seq<Step>,
    pb: Seq<Step>,
    opts: PrettyFormatOptions,
    events_to: Stream,
)
    requires
        matches_plan(a, pa, opts, events_to),
        matches_plan(b, pb, opts, events_to),
    ensures
        matches_plan(a + b, pa + pb, opts, events_to),
{
    assert forall|i: int| 0 <= i < (a + b).len() implies line_matches(
        #[trigger] (a + b)[i],
        (pa + pb)[i],
        opts,
        events_to,
    ) by {
        if i < a.len() {
            assert(line_matches(a[i], pa[i], opts, events_to));
        } else {
            assert(line_matches(b[i - a.len()], pb[i - a.len()], opts, events_to));
        }
    }
}

/// The time is shown, and the layout for it cannot be used: no record
/// can be printed.
pub open spec fn untimed(opts: PrettyFormatOptions) -> bool {
    opts.show_time && !usable(opts.time_format@)
}

/// `step` where span lines are shown, nothing where only events are.
pub open spec fn span_step(opts: PrettyFormatOptions, step: Step) -> Seq<Step> {
    if opts.events_only {
        Seq::empty()
    } else {
        seq![step]
    }
}

/// One step for each event, in order.
pub open spec fn events_plan(events: Seq<EventRecord>) -> Seq<Step> {
    Seq::new(events.len(), |i: int| Step::Event(events[i]))
}

/// The steps of printing a completed span: its entry, its events in the
/// order in which they were observed, its children in the order in which
/// they closed, each with all that is below it, and its exit.
pub open spec fn tree_plan(span: SpanExtRecord, opts: PrettyFormatOptions) -> Seq<Step>
    decreases span,
{
    span_step(opts, Step::Entry(span)) + events_plan(span.events@) + forest_plan(
        span.children@,
        span.children@.len(),
        opts,
    ) + span_step(opts, Step::Exit(span))
}

/// The steps of printing the first `n` of `children`, one tree after the
/// other.
pub open spec fn forest_plan(
    children: Seq<SpanExtRecord>,
    n: nat,
    opts: PrettyFormatOptions,
) -> Seq<Step>
    decreases children, n,
{
    if n == 0 || n > children.len() {
        Seq::empty()
    } else {
        forest_plan(children, (n - 1) as nat, opts) + tree_plan(children[n - 1], opts)
    }
}

/// Every record of the tree can be indented within the machine's word.
pub open spec fn tree_fits(span: SpanExtRecord, opts: PrettyFormatOptions) -> bool
    decreases span,
{
    &&& indent_fits(opts, span.tree_level as nat)
    &&& forall|i: int|
        0 <= i < span.events@.len() ==> indent_fits(opts, event_level(#[trigger] span.events@[i]))
    &&& forest_fits(span.children@, span.children@.len(), opts)
}

/// Every record of the first `n` trees fits.
pub open spec fn forest_fits(children: Seq<SpanExtRecord>, n: nat, opts: PrettyFormatOptions) -> bool
    decreases children, n,
{
    if n == 0 || n > children.len() {
        true
    } else {
        forest_fits(children, (n - 1) as nat, opts) && tree_fits(children[n - 1], opts)
    }
}

/// Every one of the first `n` trees fits.
pub proof fn lemma_forest_fits(
    children: Seq<SpanExtRecord>,
    n: nat,
    opts: PrettyFormatOptions,
    i: int,
)
    requires
        n <= children.len(),
        forest_fits(children, n, opts),
        0 <= i < n,
    ensures
        tree_fits(children[i], opts),
    decreases n,
{
    if i < n - 1 {
        lemma_forest_fits(children, (n - 1) as nat, opts, i);
    }
}

/// Every span below `span` is one level deeper than the span that holds
/// it, and names that span as its parent.
pub open spec fn tree_linked(span: SpanExtRecord) -> bool
    decreases span,
{
    forest_linked(span.children@, span.children@.len(), span.tree_level as nat, span.id)
}

/// The first `n` trees are children of a span with the given depth and
/// id, and linked themselves.
pub open spec fn forest_linked(
    children: Seq<SpanExtRecord>,
    n: nat,
    level: nat,
    id: u64,
) -> bool
    decreases children, n,
{
    if n == 0 || n > children.len() {
        true
    } else {
        &&& forest_linked(children, (n - 1) as nat, level, id)
        &&& children[n - 1].tree_level == level + 1
        &&& children[n - 1].parent == Some(id)
        &&& tree_linked(children[n - 1])
    }
}

/// Every one of the first `n` linked trees is a linked child.
pub proof fn lemma_forest_linked(
    children: Seq<SpanExtRecord>,
    n: nat,
    level: nat,
    id: u64,
    i: int,
)
    requires
        n <= children.len(),
        forest_linked(children, n, level, id),
        0 <= i < n,
    ensures
        children[i].tree_level == level + 1,
        children[i].parent == Some(id),
        tree_linked(children[i]),
    decreases n,
{
    if i < n - 1 {
        lemma_forest_linked(children, (n - 1) as nat, level, id, i);
    }
}

impl PrettyConsoleLayer {
    /// Prints the tree of a completed root span: the line-groups of its
    /// plan, each at the time at which the walk reaches it.
    pub fn output_root_tree(&self, record: &SpanExtRecord) -> (r: Result<
        Vec<LineGroup>,
        RenderError,
    >)
        requires
            tree_fits(*record, self.options()),
        ensures
            !self.options().show_time ==> r is Ok,
            r matches Ok(out) ==> matches_plan(
                out@,
                tree_plan(*record, self.options()),
                self.options(),
                Stream::Stdout,
            ),
            r is Err ==> fails_to_stamp(self.options().time_format@),
            untimed(self.options()) && tree_plan(*record, self.options()).len() > 0 ==> r is Err,
        decreases *record,
    {
        let opts = self.format();
        let mut out: Vec<LineGroup> = Vec::new();
        let ghost entry = span_step(*opts, Step::Entry(*record));
        if !opts.events_only {
            match record.serialize_span_entry(opts) {
                Ok(bytes) => {
                    out.push(LineGroup { kind: LineKind::SpanEntry, stream: Stream::Stderr, bytes });
                },
                Err(error) => {
                    return Err(error);
                },
            }
        }
        assert(matches_plan(out@, entry, *opts, Stream::Stdout));
        assert(untimed(*opts) ==> opts.events_only && out@.len() == 0);
        let ghost events = events_plan(record.events@);
        let mut i: usize = 0;
        assert(entry + events.take(0) =~= entry);
        while i < record.events.len()
            invariant
                i <= record.events.len(),
                *opts == self.options(),
                tree_fits(*record, *opts),
                events == events_plan(record.events@),
                untimed(*opts) ==> opts.events_only && out@.len() == 0,
                matches_plan(out@, entry + events.take(i as int), *opts, Stream::Stdout),
            decreases record.events.len() - i,
        {
            let event = &record.events[i];
            assert(indent_fits(*opts, event_level(record.events@[i as int])));
            match event.serialize(opts) {
                Ok(bytes) => {
                    let group = LineGroup { kind: LineKind::Event, stream: Stream::Stdout, bytes };
                    proof {
                        assert(matches_plan(seq![group], seq![events[i as int]], *opts, Stream::Stdout));
                        lemma_matches_concat(
                            out@,
                            seq![group],
                            entry + events.take(i as int),
                            seq![events[i as int]],
                            *opts,
                            Stream::Stdout,
                        );
                        assert(out@ + seq![group] =~= out@.push(group));
                        assert(entry + events.take(i as int) + seq![events[i as int]] =~= entry
                            + events.take(i + 1));
                    }
                    out.push(group);
                },
                Err(error) => {
                    return Err(error);
                },
            }
            i = i + 1;
        }
        assert(events.take(i as int) =~= events);
        let ghost before = entry + events;
        let mut j: usize = 0;
        assert(before + forest_plan(record.children@, 0, *opts) =~= before);
        while j < record.children.len()
            invariant
                j <= record.children.len(),
                *opts == self.options(),
                tree_fits(*record, *opts),
                untimed(*opts) ==> opts.events_only && out@.len() == 0,
                matches_plan(
                    out@,
                    before + forest_plan(record.children@, j as nat, *opts),
                    *opts,
                    Stream::Stdout,
                ),
            decreases record.children.len() - j,
        {
            let child = &record.children[j];
            proof {
                lemma_forest_fits(
                    record.children@,
                    record.children@.len(),
                    *opts,
                    j as int,
                );
            }
            match self.output_root_tree(child) {
                Ok(lines) => {
                    let mut lines = lines;
                    proof {
                        lemma_matches_concat(
                            out@,
                            lines@,
                            before + forest_plan(record.children@, j as nat, *opts),
                            tree_plan(*child, *opts),
                            *opts,
                            Stream::Stdout,
                        );
                        assert(before + forest_plan(record.children@, j as nat, *opts) + tree_plan(
                            *child,
                            *opts,
                        ) =~= before + forest_plan(record.children@, (j + 1) as nat, *opts));
                    }
                    out.append(&mut lines);
                },
                Err(error) => {
                    return Err(error);
                },
            }
            j = j + 1;
        }
        let ghost body = before + forest_plan(record.children@, record.children@.len(), *opts);
        if !opts.events_only {
            let bytes = record.serialize_span_exit(opts);
            let group = LineGroup { kind: LineKind::SpanExit, stream: Stream::Stderr, bytes };
            proof {
                assert(matches_plan(seq![group], seq![Step::Exit(*record)], *opts, Stream::Stdout));
                lemma_matches_concat(
                    out@,
                    seq![group],
                    body,
                    seq![Step::Exit(*record)],
                    *opts,
                    Stream::Stdout,
                );
                assert(out@ + seq![group] =~= out@.push(group));
            }
            out.push(group);
        }
        assert(body + span_step(*opts, Step::Exit(*record)) =~= tree_plan(*record, *opts));
        Ok(out)
    }
}

} // verus!
