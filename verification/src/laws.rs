//! What holds of every run: how many lines a run of callbacks prints, how
//! the steps of a tree lie inside each other, and that what is printed
//! depends on nothing but the records, the options and what the clock and
//! the terminal gave.
use crate::fields::{has_name, lemma_without, message_name, without, FieldView};
use crate::format::PrettyFormatOptions;
use crate::layer::{enter_plan, exit_plan, store_linked};
use crate::markup::{doc_text, is_rendering, toggles_fit, SegmentView, Toggles};
use crate::record::{
    event_layout, renders, span_entry_layout, span_exit_layout, timed, EventRecord, SpanExtRecord,
};
use crate::tree::{
    events_plan, forest_plan, lemma_forest_linked, line_matches, matches_plan, span_step,
    tree_linked, tree_plan, LineGroup, Step, Stream,
};
use vstd::prelude::*;
use vstd::utf8::encode_utf8;

verus! {

/// The fields of an event other than its message: none of them is called
/// `message`, and they are the other fields of the event, no more and no
/// fewer.
pub proof fn lemma_meta_fields_hold_no_message(fields: Seq<FieldView>)
    ensures
        !has_name(without(fields, message_name()), message_name()),
        forall|i: int|
            0 <= i < fields.len() && (#[trigger] fields[i]).name != message_name() ==> without(
                fields,
                message_name(),
            ).contains(fields[i]),
        forall|k: int|
            0 <= k < without(fields, message_name()).len() ==> fields.contains(
                #[trigger] without(fields, message_name())[k],
            ),
{
    lemma_without(fields, message_name());
}

/// A store without spans hangs together.
pub proof fn lemma_empty_store_linked()
    ensures
        store_linked(Map::<u64, SpanExtRecord>::empty()),
{
}

/// In a store that hangs together, a span without parent is at depth 0,
/// and any other span is one level below its parent.
pub proof fn lemma_child_below_parent(spans: Map<u64, SpanExtRecord>, id: u64)
    requires
        store_linked(spans),
        spans.contains_key(id),
    ensures
        spans[id].parent is None ==> spans[id].tree_level == 0,
        spans[id].parent matches Some(above) ==> spans.contains_key(above) && spans[id].tree_level
            == spans[above].tree_level + 1,
{
}

/// In a tree that hangs together, every child is one level below the span
/// that adopted it.
pub proof fn lemma_adopted_child_below_parent(span: SpanExtRecord, k: int)
    requires
        tree_linked(span),
        0 <= k < span.children@.len(),
    ensures
        span.children@[k].tree_level == span.tree_level + 1,
        span.children@[k].parent == Some(span.id),
        tree_linked(span.children@[k]),
{
    lemma_forest_linked(
        span.children@,
        span.children@.len(),
        span.tree_level as nat,
        span.id,
        k,
    );
}

/// The number of span entries among the steps.
pub open spec fn entries(plan: Seq<Step>) -> nat
    decreases plan.len(),
{
    if plan.len() == 0 {
        0
    } else {
        entries(plan.drop_last()) + if plan.last() is Entry {
            1nat
        } else {
            0nat
        }
    }
}

/// The number of span exits among the steps.
pub open spec fn exits(plan: Seq<Step>) -> nat
    decreases plan.len(),
{
    if plan.len() == 0 {
        0
    } else {
        exits(plan.drop_last()) + if plan.last() is Exit {
            1nat
        } else {
            0nat
        }
    }
}

/// The number of events among the steps.
pub open spec fn events(plan: Seq<Step>) -> nat
    decreases plan.len(),
{
    if plan.len() == 0 {
        0
    } else {
        events(plan.drop_last()) + if plan.last() is Event {
            1nat
        } else {
            0nat
        }
    }
}

/// The counts of two runs of steps add up.
pub proof fn lemma_counts_concat(a: Seq<Step>, b: Seq<Step>)
    ensures
        entries(a + b) == entries(a) + entries(b),
        exits(a + b) == exits(a) + exits(b),
        events(a + b) == events(a) + events(b),
    decreases b.len(),
{
    if b.len() == 0 {
        assert(a + b =~= a);
    } else {
        lemma_counts_concat(a, b.drop_last());
        assert((a + b).drop_last() =~= a + b.drop_last());
        assert((a + b).last() == b.last());
    }
}

/// A callback of a span being entered or exited.
pub enum Call {
    Enter(u64),
    Exit(u64),
}

/// How many spans are entered and not exited after the calls.
pub open spec fn depth(calls: Seq<Call>) -> int
    decreases calls.len(),
{
    if calls.len() == 0 {
        0
    } else {
        depth(calls.drop_last()) + if calls.last() is Enter {
            1int
        } else {
            -1int
        }
    }
}

/// The calls nest: no span is exited that was not entered, and in the end
/// every span that was entered has been exited.
pub open spec fn nested(calls: Seq<Call>) -> bool {
    &&& depth(calls) == 0
    &&& forall|k: int| 0 <= k <= calls.len() ==> depth(#[trigger] calls.take(k)) >= 0
}

/// What the calls print, one after the other, for the spans of `spans`.
pub open spec fn streamed_plan(
    calls: Seq<Call>,
    spans: Map<u64, SpanExtRecord>,
    opts: PrettyFormatOptions,
) -> Seq<Step>
    decreases calls.len(),
{
    if calls.len() == 0 {
        Seq::empty()
    } else {
        streamed_plan(calls.drop_last(), spans, opts) + match calls.last() {
            Call::Enter(id) => enter_plan(spans[id], opts),
            Call::Exit(id) => exit_plan(spans[id], opts),
        }
    }
}

proof fn lemma_streamed_counts(
    calls: Seq<Call>,
    spans: Map<u64, SpanExtRecord>,
    opts: PrettyFormatOptions,
)
    ensures
        entries(streamed_plan(calls, spans, opts)) - exits(streamed_plan(calls, spans, opts)) == if opts.wrapped
            || opts.events_only {
            0
        } else {
            depth(calls)
        },
        events(streamed_plan(calls, spans, opts)) == 0,
    decreases calls.len(),
{
    if calls.len() > 0 {
        let init = streamed_plan(calls.drop_last(), spans, opts);
        let step = match calls.last() {
            Call::Enter(id) => enter_plan(spans[id], opts),
            Call::Exit(id) => exit_plan(spans[id], opts),
        };
        lemma_streamed_counts(calls.drop_last(), spans, opts);
        lemma_counts_concat(init, step);
        if step.len() > 0 {
            assert(step.drop_last() =~= Seq::<Step>::empty());
            assert(entries(step.drop_last()) == 0);
            assert(exits(step.drop_last()) == 0);
            assert(events(step.drop_last()) == 0);
        }
    }
}

/// Where lines are streamed, calls that nest print as many span exits as
/// span entries.
pub proof fn lemma_streamed_exits_match_entries(
    calls: Seq<Call>,
    spans: Map<u64, SpanExtRecord>,
    opts: PrettyFormatOptions,
)
    requires
        !opts.wrapped,
        nested(calls),
    ensures
        exits(streamed_plan(calls, spans, opts)) == entries(streamed_plan(calls, spans, opts)),
{
    lemma_streamed_counts(calls, spans, opts);
}

/// The number of spans in the tree.
pub open spec fn span_count(span: SpanExtRecord) -> nat
    decreases span,
{
    1 + forest_span_count(span.children@, span.children@.len())
}

/// The number of spans in the first `n` trees.
pub open spec fn forest_span_count(children: Seq<SpanExtRecord>, n: nat) -> nat
    decreases children, n,
{
    if n == 0 || n > children.len() {
        0
    } else {
        forest_span_count(children, (n - 1) as nat) + span_count(children[n - 1])
    }
}

/// The number of events in the tree.
pub open spec fn event_count(span: SpanExtRecord) -> nat
    decreases span,
{
    span.events@.len() + forest_event_count(span.children@, span.children@.len())
}

/// The number of events in the first `n` trees.
pub open spec fn forest_event_count(children: Seq<SpanExtRecord>, n: nat) -> nat
    decreases children, n,
{
    if n == 0 || n > children.len() {
        0
    } else {
        forest_event_count(children, (n - 1) as nat) + event_count(children[n - 1])
    }
}

proof fn lemma_events_plan_counts(list: Seq<EventRecord>)
    ensures
        entries(events_plan(list)) == 0,
        exits(events_plan(list)) == 0,
        events(events_plan(list)) == list.len(),
    decreases list.len(),
{
    if list.len() > 0 {
        lemma_events_plan_counts(list.drop_last());
        assert(events_plan(list).drop_last() =~= events_plan(list.drop_last()));
    }
}

proof fn lemma_span_step_counts(opts: PrettyFormatOptions, step: Step)
    ensures
        entries(span_step(opts, step)) == if !opts.events_only && step is Entry {
            1nat
        } else {
            0nat
        },
        exits(span_step(opts, step)) == if !opts.events_only && step is Exit {
            1nat
        } else {
            0nat
        },
        events(span_step(opts, step)) == if !opts.events_only && step is Event {
            1nat
        } else {
            0nat
        },
{
    let plan = span_step(opts, step);
    if plan.len() > 0 {
        assert(plan.drop_last() =~= Seq::<Step>::empty());
        assert(entries(plan.drop_last()) == 0);
        assert(exits(plan.drop_last()) == 0);
        assert(events(plan.drop_last()) == 0);
    }
}

/// The tree of a span is printed with exactly one entry and one exit for
/// each of its spans, and one line for each of its events; where only
/// events are shown, with the events alone.
pub proof fn lemma_tree_plan_counts(span: SpanExtRecord, opts: PrettyFormatOptions)
    ensures
        events(tree_plan(span, opts)) == event_count(span),
        !opts.events_only ==> entries(tree_plan(span, opts)) == span_count(span),
        !opts.events_only ==> exits(tree_plan(span, opts)) == span_count(span),
        opts.events_only ==> entries(tree_plan(span, opts)) == 0 && exits(tree_plan(span, opts))
            == 0,
        tree_plan(span, opts).len() == entries(tree_plan(span, opts)) + events(
            tree_plan(span, opts),
        ) + exits(tree_plan(span, opts)),
    decreases span, 0nat,
{
    let entry = span_step(opts, Step::Entry(span));
    let own = events_plan(span.events@);
    let below = forest_plan(span.children@, span.children@.len(), opts);
    let exit = span_step(opts, Step::Exit(span));
    lemma_span_step_counts(opts, Step::Entry(span));
    lemma_span_step_counts(opts, Step::Exit(span));
    lemma_events_plan_counts(span.events@);
    lemma_forest_plan_counts(span.children@, span.children@.len(), opts);
    lemma_counts_concat(entry, own);
    lemma_counts_concat(entry + own, below);
    lemma_counts_concat(entry + own + below, exit);
}

/// The counts of the first `n` trees of a forest.
pub proof fn lemma_forest_plan_counts(
    children: Seq<SpanExtRecord>,
    n: nat,
    opts: PrettyFormatOptions,
)
    requires
        n <= children.len(),
    ensures
        events(forest_plan(children, n, opts)) == forest_event_count(children, n),
        !opts.events_only ==> entries(forest_plan(children, n, opts)) == forest_span_count(
            children,
            n,
        ),
        !opts.events_only ==> exits(forest_plan(children, n, opts)) == forest_span_count(
            children,
            n,
        ),
        opts.events_only ==> entries(forest_plan(children, n, opts)) == 0 && exits(
            forest_plan(children, n, opts),
        ) == 0,
        forest_plan(children, n, opts).len() == entries(forest_plan(children, n, opts)) + events(
            forest_plan(children, n, opts),
        ) + exits(forest_plan(children, n, opts)),
    decreases children, n,
{
    if n > 0 {
        lemma_forest_plan_counts(children, (n - 1) as nat, opts);
        lemma_tree_plan_counts(children[n - 1], opts);
        lemma_counts_concat(
            forest_plan(children, (n - 1) as nat, opts),
            tree_plan(children[n - 1], opts),
        );
    }
}

/// Where in the steps of a span's tree the tree of its child `k` begins.
pub open spec fn child_start(span: SpanExtRecord, k: nat, opts: PrettyFormatOptions) -> int {
    (span_step(opts, Step::Entry(span)).len() + span.events@.len() + forest_plan(
        span.children@,
        k,
        opts,
    ).len()) as int
}

/// The steps of the tree of child `k` stand in a row among the steps of
/// the span's tree, after its entry and before its exit.
pub open spec fn child_inside(span: SpanExtRecord, k: int, opts: PrettyFormatOptions) -> bool {
    let start = child_start(span, k as nat, opts);
    let child = tree_plan(span.children@[k], opts);
    &&& 0 < start
    &&& start + child.len() < tree_plan(span, opts).len()
    &&& tree_plan(span, opts).subrange(start, start + child.len()) == child
}

proof fn lemma_forest_holds_tree(
    children: Seq<SpanExtRecord>,
    k: nat,
    n: nat,
    opts: PrettyFormatOptions,
)
    requires
        k < n <= children.len(),
    ensures
        forest_plan(children, k, opts).len() + tree_plan(children[k as int], opts).len()
            <= forest_plan(children, n, opts).len(),
        forest_plan(children, n, opts).subrange(
            forest_plan(children, k, opts).len() as int,
            (forest_plan(children, k, opts).len() + tree_plan(children[k as int], opts).len()) as int,
        ) == tree_plan(children[k as int], opts),
    decreases n,
{
    let start = forest_plan(children, k, opts).len() as int;
    let tree = tree_plan(children[k as int], opts);
    if n == k + 1 {
        assert(forest_plan(children, n, opts).subrange(start, start + tree.len()) =~= tree);
    } else {
        lemma_forest_holds_tree(children, k, (n - 1) as nat, opts);
        let shorter = forest_plan(children, (n - 1) as nat, opts);
        assert(forest_plan(children, n, opts).subrange(start, start + tree.len())
            =~= shorter.subrange(start, start + tree.len()));
    }
}

/// In the tree of a span, where span lines are shown: the entry of the
/// span comes first and its exit last; its own events follow the entry in
/// the order in which they were observed; and the whole tree of each of
/// its children lies between the entry and the exit.
pub proof fn lemma_tree_plan_nesting(span: SpanExtRecord, opts: PrettyFormatOptions)
    requires
        !opts.events_only,
    ensures
        tree_plan(span, opts).first() == Step::Entry(span),
        tree_plan(span, opts).last() == Step::Exit(span),
        forall|i: int|
            0 <= i < span.events@.len() ==> #[trigger] tree_plan(span, opts)[1 + i] == Step::Event(
                span.events@[i],
            ),
        forall|k: int| 0 <= k < span.children@.len() ==> #[trigger] child_inside(span, k, opts),
{
    let plan = tree_plan(span, opts);
    let own = events_plan(span.events@);
    let below = forest_plan(span.children@, span.children@.len(), opts);
    assert forall|i: int| 0 <= i < span.events@.len() implies #[trigger] plan[1 + i]
        == Step::Event(span.events@[i]) by {
        assert(plan[1 + i] == own[i]);
    }
    assert forall|k: int| 0 <= k < span.children@.len() implies #[trigger] child_inside(
        span,
        k,
        opts,
    ) by {
        lemma_forest_holds_tree(span.children@, k as nat, span.children@.len(), opts);
        let start = forest_plan(span.children@, k as nat, opts).len() as int;
        let tree = tree_plan(span.children@[k], opts);
        let at = child_start(span, k as nat, opts);
        assert(plan.subrange(at, at + tree.len()) =~= below.subrange(start, start + tree.len()));
    }
}

/// What one line-group took from outside: the time of day, the time
/// since the span was created, and which styles the terminal was given.
pub struct Reading {
    pub time: Seq<char>,
    pub micros: nat,
    pub on: Seq<Toggles>,
}

/// The layout of a step under a reading.
pub open spec fn step_layout(step: Step, opts: PrettyFormatOptions, reading: Reading) -> Seq<
    SegmentView,
> {
    match step {
        Step::Entry(span) => span_entry_layout(span, opts, reading.time),
        Step::Event(event) => event_layout(event, opts, reading.time),
        Step::Exit(span) => span_exit_layout(span, opts, reading.micros),
    }
}

/// The bytes of a step under a reading.
pub open spec fn step_bytes(step: Step, opts: PrettyFormatOptions, reading: Reading) -> Seq<u8> {
    if opts.events_only && !(step is Event) {
        Seq::empty()
    } else {
        encode_utf8(doc_text(step_layout(step, opts, reading), reading.on))
    }
}

/// The reading can be one of the clock: where the step shows a time, the
/// time of the reading is some instant written in the layout of the
/// options.
pub open spec fn reading_timed(step: Step, opts: PrettyFormatOptions, reading: Reading) -> bool {
    step is Event || (step is Entry && !opts.events_only) ==> timed(opts, reading.time)
}

/// `out` is what the steps of `plan` give under the readings, one each.
pub open spec fn rendered_with(
    out: Seq<LineGroup>,
    plan: Seq<Step>,
    opts: PrettyFormatOptions,
    readings: Seq<Reading>,
) -> bool {
    &&& out.len() == plan.len()
    &&& readings.len() == plan.len()
    &&& forall|i: int|
        0 <= i < out.len() ==> (#[trigger] out[i]).bytes@ == step_bytes(plan[i], opts, readings[i])
    &&& forall|i: int|
        0 <= i < plan.len() ==> reading_timed(plan[i], opts, #[trigger] readings[i])
}

proof fn lemma_line_has_reading(
    group: LineGroup,
    step: Step,
    opts: PrettyFormatOptions,
    events_to: Stream,
) -> (reading: Reading)
    requires
        line_matches(group, step, opts, events_to),
    ensures
        group.bytes@ == step_bytes(step, opts, reading),
        reading_timed(step, opts, reading),
{
    if opts.events_only && !(step is Event) {
        Reading { time: Seq::empty(), micros: 0, on: Seq::empty() }
    } else {
        match step {
            Step::Entry(span) => {
                let time = choose|time: Seq<char>|
                    timed(opts, time) && renders(
                        group.bytes@,
                        #[trigger] span_entry_layout(span, opts, time),
                    );
                let doc = span_entry_layout(span, opts, time);
                let text = choose|text: Seq<char>|
                    is_rendering(text, doc) && group.bytes@ == encode_utf8(text);
                let on = choose|on: Seq<Toggles>| toggles_fit(doc, on) && text == doc_text(doc, on);
                Reading { time, micros: 0, on }
            },
            Step::Event(event) => {
                let time = choose|time: Seq<char>|
                    timed(opts, time) && renders(
                        group.bytes@,
                        #[trigger] event_layout(event, opts, time),
                    );
                let doc = event_layout(event, opts, time);
                let text = choose|text: Seq<char>|
                    is_rendering(text, doc) && group.bytes@ == encode_utf8(text);
                let on = choose|on: Seq<Toggles>| toggles_fit(doc, on) && text == doc_text(doc, on);
                Reading { time, micros: 0, on }
            },
            Step::Exit(span) => {
                let micros = choose|micros: nat|
                    renders(group.bytes@, span_exit_layout(span, opts, micros));
                let doc = span_exit_layout(span, opts, micros);
                let text = choose|text: Seq<char>|
                    is_rendering(text, doc) && group.bytes@ == encode_utf8(text);
                let on = choose|on: Seq<Toggles>| toggles_fit(doc, on) && text == doc_text(doc, on);
                Reading { time: Seq::empty(), micros, on }
            },
        }
    }
}

/// Whatever is printed for a plan is what its steps give under some
/// readings of the clock and the terminal.
pub proof fn lemma_output_has_readings(
    out: Seq<LineGroup>,
    plan: Seq<Step>,
    opts: PrettyFormatOptions,
    events_to: Stream,
) -> (readings: Seq<Reading>)
    requires
        matches_plan(out, plan, opts, events_to),
    ensures
        rendered_with(out, plan, opts, readings),
    decreases out.len(),
{
    if out.len() == 0 {
        Seq::empty()
    } else {
        assert(line_matches(out.last(), plan.last(), opts, events_to));
        assert forall|i: int| 0 <= i < out.drop_last().len() implies line_matches(
            #[trigger] out.drop_last()[i],
            plan.drop_last()[i],
            opts,
            events_to,
        ) by {
            assert(line_matches(out[i], plan[i], opts, events_to));
        }
        let init = lemma_output_has_readings(out.drop_last(), plan.drop_last(), opts, events_to);
        let last = lemma_line_has_reading(out.last(), plan.last(), opts, events_to);
        let readings = init.push(last);
        assert forall|i: int| 0 <= i < out.len() implies (#[trigger] out[i]).bytes@ == step_bytes(
            plan[i],
            opts,
            readings[i],
        ) by {
            if i < out.len() - 1 {
                assert(out.drop_last()[i].bytes@ == step_bytes(plan.drop_last()[i], opts, init[i]));
            }
        }
        assert forall|i: int| 0 <= i < plan.len() implies reading_timed(
            plan[i],
            opts,
            #[trigger] readings[i],
        ) by {
            if i < plan.len() - 1 {
                assert(reading_timed(plan.drop_last()[i], opts, init[i]));
            }
        }
        readings
    }
}

/// Printing the same records twice, with the same options and under the
/// same readings of the clock and the terminal, gives the same bytes, line
/// by line.
pub proof fn lemma_same_readings_same_bytes(
    first: Seq<LineGroup>,
    second: Seq<LineGroup>,
    plan: Seq<Step>,
    opts: PrettyFormatOptions,
    readings: Seq<Reading>,
)
    requires
        rendered_with(first, plan, opts, readings),
        rendered_with(second, plan, opts, readings),
    ensures
        first.len() == second.len(),
        forall|i: int| 0 <= i < first.len() ==> (#[trigger] first[i]).bytes@ == second[i].bytes@,
{
    assert forall|i: int| 0 <= i < first.len() implies (#[trigger] first[i]).bytes@
        == second[i].bytes@ by {
        assert(second[i].bytes@ == step_bytes(plan[i], opts, readings[i]));
    }
}

} // verus!
