//! The layer's callbacks: what happens to the store and what is printed
//! when a span is created, entered, exited or closed, and when an event is
//! observed.
use crate::clock::{fails_to_stamp, instant_now, RenderError};
use crate::fields::{
    fields_view, has_name, message_name, recorded, value_of, without, Field, FieldMap, FieldView,
};
use crate::format::{PrettyConsoleLayer, PrettyFormatOptions};
use crate::layout::indent_fits;
use crate::record::{event_level, EventRecord, Level, SpanExtRecord};
use crate::store::SpanStore;
use crate::tree::{
    forest_fits, forest_linked, matches_plan, span_step, tree_fits, tree_linked, tree_plan,
    untimed, LineGroup, LineKind, Step, Stream,
};
use crate::extension::{record_all, SpanExtension, Visit};
use crate::visit::EventVisitor;
use vstd::prelude::*;

verus! {

/// What the event source tells of a span when it creates it.
#[derive(Debug)]
pub struct SpanRef {
    pub id: u64,
    /// The span inside which this one was created, if there is one.
    pub parent: Option<u64>,
    pub name: String,
    pub target: String,
    pub file: Option<String>,
    pub line: Option<u32>,
}

/// An event as the event source hands it over.
#[derive(Debug)]
pub struct EventData {
    pub level: Level,
    pub target: String,
    pub file: Option<String>,
    pub line: Option<u32>,
    /// The payload: the message under the name `message`, and the other
    /// fields.
    pub fields: Vec<Field>,
}

/// The text of an optional file name: empty where there is none.
pub open spec fn file_or_empty(file: Option<String>) -> Seq<char> {
    match file {
        Some(name) => name@,
        None => Seq::empty(),
    }
}

/// An optional line number: 0 where there is none.
pub open spec fn line_or_zero(line: Option<u32>) -> u32 {
    match line {
        Some(number) => number,
        None => 0,
    }
}

/// The depth of a new span below a parent of the given depth: one more
/// than the parent's, and 0 for a span without parent.
pub open spec fn level_below(parent_level: Option<usize>) -> nat {
    match parent_level {
        Some(level) => (level + 1) as nat,
        None => 0,
    }
}

/// `record` is the record of a span that was just created from
/// `span_ref`: it has the span's identity and metadata, and no events or
/// children yet.
pub open spec fn created_from(record: SpanExtRecord, span_ref: SpanRef) -> bool {
    &&& record.id == span_ref.id
    &&& record.parent == span_ref.parent
    &&& record.name@ == span_ref.name@
    &&& record.target@ == span_ref.target@
    &&& record.file@ == file_or_empty(span_ref.file)
    &&& record.line == line_or_zero(span_ref.line)
    &&& record.events@ == Seq::<EventRecord>::empty()
    &&& record.children@ == Seq::<SpanExtRecord>::empty()
}

/// The two records differ in nothing but what was recorded, observed or
/// adopted: identity, depth, metadata and time of creation are the same.
pub open spec fn same_span(after: SpanExtRecord, before: SpanExtRecord) -> bool {
    &&& after.tree_level == before.tree_level
    &&& after.id == before.id
    &&& after.parent == before.parent
    &&& after.name == before.name
    &&& after.target == before.target
    &&& after.file == before.file
    &&& after.line == before.line
    &&& after.entered == before.entered
}

/// The payload of the event, each name once.
pub open spec fn event_fields(event: EventData) -> Seq<FieldView> {
    recorded(Seq::empty(), fields_view(event.fields@))
}

/// `record` is the record of `event`, observed inside `span`.
pub open spec fn describes(
    record: EventRecord,
    event: EventData,
    span: Option<(usize, u64, String)>,
) -> bool {
    &&& record.level == event.level
    &&& record.target@ == event.target@
    &&& record.file@ == file_or_empty(event.file)
    &&& record.line == line_or_zero(event.line)
    &&& record.message@ == value_of(event_fields(event), message_name())
    &&& record.meta_fields@ == without(event_fields(event), message_name())
    &&& record.span == span
}

/// The span that an event observed inside `current` is tagged with: one
/// level below the span, with the span's id and name.
pub open spec fn event_span(spans: Map<u64, SpanExtRecord>, current: Option<u64>) -> Option<
    (usize, u64, String),
> {
    match current {
        Some(id) => Some(((spans[id].tree_level + 1) as usize, id, spans[id].name)),
        None => None,
    }
}

/// Every span of the store, with all that it holds, can be indented
/// within the machine's word, and so can an event inside it.
pub open spec fn store_fits(spans: Map<u64, SpanExtRecord>, opts: PrettyFormatOptions) -> bool {
    forall|id: u64| #[trigger]
        spans.contains_key(id) ==> tree_fits(spans[id], opts) && indent_fits(
            opts,
            (spans[id].tree_level + 1) as nat,
        )
}

/// The spans of the store hang together: each is kept under its id; a
/// span without parent is at depth 0; the parent of any other span is in
/// the store, one level above it; and the same holds of the children that
/// a span has adopted.
pub open spec fn store_linked(spans: Map<u64, SpanExtRecord>) -> bool {
    forall|id: u64| #[trigger]
        spans.contains_key(id) ==> {
            &&& spans[id].id == id
            &&& tree_linked(spans[id])
            &&& match spans[id].parent {
                Some(above) => spans.contains_key(above) && spans[id].tree_level
                    == spans[above].tree_level + 1,
                None => spans[id].tree_level == 0,
            }
        }
}

/// No span of the store has the span `id` as its parent: all that was
/// created inside it has closed.
pub open spec fn childless(spans: Map<u64, SpanExtRecord>, id: u64) -> bool {
    forall|other: u64| #[trigger] spans.contains_key(other) ==> spans[other].parent != Some(id)
}

/// What entering a span prints: its entry where lines are streamed and
/// span lines are shown.
pub open spec fn enter_plan(span: SpanExtRecord, opts: PrettyFormatOptions) -> Seq<Step> {
    if opts.wrapped {
        Seq::empty()
    } else {
        span_step(opts, Step::Entry(span))
    }
}

/// What exiting a span prints: its exit where lines are streamed and span
/// lines are shown.
pub open spec fn exit_plan(span: SpanExtRecord, opts: PrettyFormatOptions) -> Seq<Step> {
    if opts.wrapped {
        Seq::empty()
    } else {
        span_step(opts, Step::Exit(span))
    }
}

fn text_or_empty(text: &Option<String>) -> (r: String)
    ensures
        r@ == file_or_empty(*text),
{
    match text {
        Some(name) => name.clone(),
        None => String::new(),
    }
}

fn number_or_zero(number: &Option<u32>) -> (r: u32)
    ensures
        r == line_or_zero(*number),
{
    match number {
        Some(line) => *line,
        None => 0,
    }
}

impl SpanExtRecord {
    /// The record of a span that was just created, given the record of
    /// its parent where it has one. Its depth is one more than that of its
    /// parent, and 0 where it has none. Attributes are not collected yet.
    /// A span that names a parent without a record breaks the contract of
    /// the event source.
    pub fn new_from_span_ref(span_ref: &SpanRef, parent: Option<&SpanExtRecord>) -> (r: Self)
        requires
            span_ref.parent is Some <==> parent is Some,
            parent matches Some(above) ==> span_ref.parent == Some(above.id),
            parent matches Some(above) ==> above.tree_level < usize::MAX,
        ensures
            parent matches Some(above) ==> r.tree_level == above.tree_level + 1,
            parent is None ==> r.tree_level == 0,
            created_from(r, *span_ref),
            r.attrs@ == Seq::<FieldView>::empty(),
    {
        let tree_level: usize = match parent {
            Some(above) => above.tree_level + 1,
            None => 0,
        };
        SpanExtRecord {
            tree_level,
            id: span_ref.id,
            parent: span_ref.parent,
            name: span_ref.name.clone(),
            target: span_ref.target.clone(),
            file: text_or_empty(&span_ref.file),
            line: number_or_zero(&span_ref.line),
            attrs: FieldMap::new(),
            entered: instant_now(),
            events: Vec::new(),
            children: Vec::new(),
        }
    }
}

impl Visit for SpanExtRecord {
    open spec fn fields(&self) -> Seq<FieldView> {
        self.attrs@
    }

    fn record_debug(&mut self, name: &str, value: String)
        ensures
            final(self).events == old(self).events,
            final(self).children == old(self).children,
            same_span(*final(self), *old(self)),
    {
        self.attrs.insert(name, value);
    }
}

impl SpanExtension for SpanExtRecord {
    /// Records the attributes of the span. Nothing else of its record
    /// changes: identity, depth, metadata, events and children stay.
    fn record_attrs(store: &mut SpanStore<Self>, id: u64, attrs: &Vec<Field>)
        ensures
            same_span(final(store)@[id], old(store)@[id]),
            final(store)@[id].events == old(store)@[id].events,
            final(store)@[id].children == old(store)@[id].children,
    {
        let ghost before = store@;
        match store.remove(id) {
            Some(record) => {
                let mut record = record;
                record_all(&mut record.attrs, attrs);
                store.replace(id, record);
                assert(store@ =~= before.insert(id, store@[id]));
            },
            None => {},
        }
    }
}

impl EventRecord {
    /// The record of an event observed inside `span`. An event without a
    /// message breaks the contract of the event source.
    pub fn from_event(event: &EventData, span: Option<(usize, u64, String)>) -> (r: Self)
        requires
            has_name(event_fields(*event), message_name()),
        ensures
            describes(r, *event, span),
    {
        let visitor = EventVisitor::record_event(&event.fields);
        let message = visitor.message().to_owned();
        EventRecord {
            level: event.level,
            target: event.target.clone(),
            file: text_or_empty(&event.file),
            line: number_or_zero(&event.line),
            message,
            meta_fields: visitor.meta_fields(),
            span,
        }
    }
}

/// `after` is `before` with `child` adopted as its last child.
pub open spec fn adopts(after: SpanExtRecord, before: SpanExtRecord, child: SpanExtRecord) -> bool {
    &&& same_span(after, before)
    &&& after.attrs == before.attrs
    &&& after.events == before.events
    &&& after.children@ == before.children@.push(child)
}

/// `after` is `before` with `event` as its latest event.
pub open spec fn observes(after: SpanExtRecord, before: SpanExtRecord, event: EventRecord) -> bool {
    &&& same_span(after, before)
    &&& after.attrs == before.attrs
    &&& after.events@ == before.events@.push(event)
    &&& after.children == before.children
}

/// An event is printed at once where lines are streamed, and where it is
/// observed outside every span; else it is kept for the tree.
pub open spec fn immediate(opts: PrettyFormatOptions, current: Option<u64>) -> bool {
    !opts.wrapped || current is None
}

impl PrettyConsoleLayer {
    /// A span was created: it gets its record, at the depth below its
    /// parent's, with the attributes of the payload.
    pub fn on_new_span(
        &self,
        store: &mut SpanStore<SpanExtRecord>,
        span_ref: &SpanRef,
        attrs: &Vec<Field>,
    )
        requires
            !old(store)@.contains_key(span_ref.id),
            span_ref.parent matches Some(above) ==> old(store)@.contains_key(above) && old(
                store,
            )@[above].id == above && old(store)@[above].tree_level < usize::MAX,
        ensures
            final(store)@ == old(store)@.insert(span_ref.id, final(store)@[span_ref.id]),
            span_ref.parent matches Some(above) ==> final(store)@[span_ref.id].tree_level == old(
                store,
            )@[above].tree_level + 1,
            span_ref.parent is None ==> final(store)@[span_ref.id].tree_level == 0,
            created_from(final(store)@[span_ref.id], *span_ref),
            final(store)@[span_ref.id].attrs@ == recorded(Seq::empty(), fields_view(attrs@)),
            store_fits(old(store)@, self.options()) && indent_fits(
                self.options(),
                final(store)@[span_ref.id].tree_level as nat,
            ) && indent_fits(self.options(), (final(store)@[span_ref.id].tree_level + 1) as nat)
                ==> store_fits(final(store)@, self.options()),
            store_linked(old(store)@) ==> store_linked(final(store)@),
    {
        let mut record = match span_ref.parent {
            Some(above) => SpanExtRecord::new_from_span_ref(span_ref, store.get(above)),
            None => SpanExtRecord::new_from_span_ref(span_ref, None),
        };
        record_all(&mut record.attrs, attrs);
        store.init(span_ref.id, record);
    }
}

/// Adopting a child changes nothing among the first `n` children.
pub proof fn lemma_forest_fits_push(
    children: Seq<SpanExtRecord>,
    child: SpanExtRecord,
    n: nat,
    opts: PrettyFormatOptions,
)
    requires
        n <= children.len(),
    ensures
        forest_fits(children.push(child), n, opts) == forest_fits(children, n, opts),
    decreases n,
{
    if n > 0 {
        lemma_forest_fits_push(children, child, (n - 1) as nat, opts);
        assert(children.push(child)[n - 1] == children[n - 1]);
    }
}

/// `out` is the line-group of the event, printed to standard error.
pub open spec fn shows_event(
    out: Seq<LineGroup>,
    event: EventData,
    span: Option<(usize, u64, String)>,
    opts: PrettyFormatOptions,
) -> bool {
    exists|record: EventRecord|
        describes(record, event, span) && #[trigger] matches_plan(
            out,
            seq![Step::Event(record)],
            opts,
            Stream::Stderr,
        )
}

/// `after` is `before` with the record of the event as its latest event.
pub open spec fn keeps_event(
    after: SpanExtRecord,
    before: SpanExtRecord,
    event: EventData,
    span: Option<(usize, u64, String)>,
) -> bool {
    exists|record: EventRecord|
        describes(record, event, span) && #[trigger] observes(after, before, record)
}

/// The callback succeeded and printed nothing.
pub open spec fn prints_nothing(r: Result<Vec<LineGroup>, RenderError>) -> bool {
    r matches Ok(out) && out@.len() == 0
}

/// Adopting a child changes nothing about the first `n` children.
pub proof fn lemma_forest_linked_push(
    children: Seq<SpanExtRecord>,
    child: SpanExtRecord,
    n: nat,
    level: nat,
    id: u64,
)
    requires
        n <= children.len(),
    ensures
        forest_linked(children.push(child), n, level, id) == forest_linked(children, n, level, id),
    decreases n,
{
    if n > 0 {
        lemma_forest_linked_push(children, child, (n - 1) as nat, level, id);
        assert(children.push(child)[n - 1] == children[n - 1]);
    }
}

impl PrettyConsoleLayer {
    /// A span was entered. Where lines are streamed its entry is printed.
    pub fn on_enter(&self, store: &SpanStore<SpanExtRecord>, id: u64) -> (r: Result<
        Vec<LineGroup>,
        RenderError,
    >)
        requires
            store@.contains_key(id),
            self.options().wrapped || self.options().events_only || indent_fits(
                self.options(),
                store@[id].tree_level as nat,
            ),
        ensures
            self.options().wrapped || self.options().events_only || !self.options().show_time
                ==> r is Ok,
            r matches Ok(out) ==> matches_plan(
                out@,
                enter_plan(store@[id], self.options()),
                self.options(),
                Stream::Stderr,
            ),
            r is Err ==> fails_to_stamp(self.options().time_format@),
            untimed(self.options()) && enter_plan(store@[id], self.options()).len() > 0 ==> r is Err,
    {
        let opts = self.format();
        let mut out: Vec<LineGroup> = Vec::new();
        if !opts.wrapped && !opts.events_only {
            match store.get(id) {
                Some(record) => match record.serialize_span_entry(opts) {
                    Ok(bytes) => {
                        out.push(
                            LineGroup { kind: LineKind::SpanEntry, stream: Stream::Stderr, bytes },
                        );
                    },
                    Err(error) => {
                        return Err(error);
                    },
                },
                None => {},
            }
        }
        Ok(out)
    }

    /// A span was exited. Where lines are streamed its exit is printed,
    /// with the time since the span was created.
    pub fn on_exit(&self, store: &SpanStore<SpanExtRecord>, id: u64) -> (out: Vec<LineGroup>)
        requires
            store@.contains_key(id),
            self.options().wrapped || self.options().events_only || indent_fits(
                self.options(),
                store@[id].tree_level as nat,
            ),
        ensures
            matches_plan(
                out@,
                exit_plan(store@[id], self.options()),
                self.options(),
                Stream::Stderr,
            ),
    {
        let opts = self.format();
        let mut out: Vec<LineGroup> = Vec::new();
        if !opts.wrapped && !opts.events_only {
            match store.get(id) {
                Some(record) => {
                    let bytes = record.serialize_span_exit(opts);
                    out.push(LineGroup { kind: LineKind::SpanExit, stream: Stream::Stderr, bytes });
                },
                None => {},
            }
        }
        out
    }

    /// A span was closed: its record leaves the store. Where trees are
    /// buffered, the record of a span with a parent becomes the parent's
    /// last child, and the tree of a span without parent is printed.
    pub fn on_close(&self, store: &mut SpanStore<SpanExtRecord>, id: u64) -> (r: Result<
        Vec<LineGroup>,
        RenderError,
    >)
        requires
            old(store)@.contains_key(id),
            self.options().wrapped ==> match old(store)@[id].parent {
                Some(above) => above != id && old(store)@.contains_key(above),
                None => tree_fits(old(store)@[id], self.options()),
            },
        ensures
            !self.options().wrapped || old(store)@[id].parent is Some || !self.options().show_time
                ==> r is Ok,
            !self.options().wrapped || old(store)@[id].parent is None ==> final(store)@ == old(
                store,
            )@.remove(id),
            self.options().wrapped ==> match old(store)@[id].parent {
                Some(above) => {
                    &&& final(store)@ == old(store)@.remove(id).insert(above, final(store)@[above])
                    &&& adopts(final(store)@[above], old(store)@[above], old(store)@[id])
                    &&& prints_nothing(r)
                },
                None => r matches Ok(out) ==> matches_plan(
                    out@,
                    tree_plan(old(store)@[id], self.options()),
                    self.options(),
                    Stream::Stdout,
                ),
            },
            !self.options().wrapped ==> prints_nothing(r),
            r is Err ==> fails_to_stamp(self.options().time_format@),
            self.options().wrapped && old(store)@[id].parent is None && untimed(self.options())
                && tree_plan(old(store)@[id], self.options()).len() > 0 ==> r is Err,
            store_fits(old(store)@, self.options()) ==> store_fits(final(store)@, self.options()),
            store_linked(old(store)@) && childless(old(store)@, id) ==> store_linked(
                final(store)@,
            ),
    {
        let opts = self.format();
        let ghost before = store@;
        match store.remove(id) {
            Some(record) => {
                if !opts.wrapped {
                    return Ok(Vec::new());
                }
                match record.parent {
                    Some(above) => {
                        match store.remove(above) {
                            Some(parent) => {
                                let mut parent = parent;
                                proof {
                                    lemma_forest_fits_push(
                                        parent.children@,
                                        record,
                                        parent.children@.len(),
                                        *opts,
                                    );
                                    lemma_forest_linked_push(
                                        parent.children@,
                                        record,
                                        parent.children@.len(),
                                        parent.tree_level as nat,
                                        parent.id,
                                    );
                                }
                                parent.children.push(record);
                                store.replace(above, parent);
                                assert(store@ =~= before.remove(id).insert(above, store@[above]));
                                assert(store_linked(before) && childless(before, id)
                                    ==> store_linked(store@)) by {
                                    if store_linked(before) && childless(before, id) {
                                        assert(before.contains_key(id));
                                        assert(before.contains_key(above));
                                        assert forall|other: u64| #[trigger]
                                            store@.contains_key(other) implies {
                                            &&& store@[other].id == other
                                            &&& tree_linked(store@[other])
                                            &&& match store@[other].parent {
                                                Some(up) => store@.contains_key(up)
                                                    && store@[other].tree_level
                                                    == store@[up].tree_level + 1,
                                                None => store@[other].tree_level == 0,
                                            }
                                        } by {
                                            assert(before.contains_key(other));
                                        }
                                    }
                                }
                            },
                            None => {},
                        }
                        Ok(Vec::new())
                    },
                    None => self.output_root_tree(&record),
                }
            },
            None => Ok(Vec::new()),
        }
    }

    /// An event was observed while `current` was the innermost active
    /// span. Where lines are streamed, and outside every span, the event
    /// is printed at once; else it is kept as the latest event of the span.
    pub fn on_event(
        &self,
        store: &mut SpanStore<SpanExtRecord>,
        event: &EventData,
        current: Option<u64>,
    ) -> (r: Result<Vec<LineGroup>, RenderError>)
        requires
            has_name(event_fields(*event), message_name()),
            current matches Some(id) ==> old(store)@.contains_key(id) && old(store)@[id].tree_level
                < usize::MAX && indent_fits(
                self.options(),
                (old(store)@[id].tree_level + 1) as nat,
            ),
            current is None ==> indent_fits(self.options(), 0),
        ensures
            !immediate(self.options(), current) || !self.options().show_time ==> r is Ok,
            r is Err ==> fails_to_stamp(self.options().time_format@),
            immediate(self.options(), current) && untimed(self.options()) ==> r is Err,
            immediate(self.options(), current) ==> {
                &&& final(store)@ == old(store)@
                &&& r matches Ok(out) ==> shows_event(
                    out@,
                    *event,
                    event_span(old(store)@, current),
                    self.options(),
                )
            },
            !immediate(self.options(), current) ==> {
                &&& prints_nothing(r)
                &&& final(store)@ == old(store)@.insert(current->0, final(store)@[current->0])
                &&& keeps_event(
                    final(store)@[current->0],
                    old(store)@[current->0],
                    *event,
                    event_span(old(store)@, current),
                )
            },
            store_fits(old(store)@, self.options()) ==> store_fits(final(store)@, self.options()),
            store_linked(old(store)@) ==> store_linked(final(store)@),
    {
        let opts = self.format();
        let ghost before = store@;
        let span = match current {
            Some(id) => match store.get(id) {
                Some(record) => Some((record.tree_level + 1, id, record.name.clone())),
                None => None,
            },
            None => None,
        };
        let record = EventRecord::from_event(event, span);
        assert(span == event_span(before, current));
        assert(describes(record, *event, event_span(before, current)));
        let owner_id = if opts.wrapped {
            current
        } else {
            None
        };
        match owner_id {
            Some(id) => {
                match store.remove(id) {
                    Some(owner) => {
                        let mut owner = owner;
                        let ghost was = owner;
                        owner.events.push(record);
                        assert(observes(owner, was, record));
                        assert(keeps_event(owner, was, *event, event_span(before, current)));
                        assert(tree_fits(was, *opts) && indent_fits(
                            *opts,
                            (was.tree_level + 1) as nat,
                        ) ==> tree_fits(owner, *opts)) by {
                            if tree_fits(was, *opts) && indent_fits(
                                *opts,
                                (was.tree_level + 1) as nat,
                            ) {
                                assert forall|i: int| 0 <= i < owner.events@.len() implies indent_fits(
                                    *opts,
                                    event_level(#[trigger] owner.events@[i]),
                                ) by {
                                    if i < was.events@.len() {
                                        assert(owner.events@[i] == was.events@[i]);
                                    }
                                }
                            }
                        }
                        store.replace(id, owner);
                        assert(store@ =~= before.insert(id, store@[id]));
                        assert(store_linked(before) ==> store_linked(store@)) by {
                            if store_linked(before) {
                                assert(before.contains_key(id));
                                assert forall|other: u64| #[trigger]
                                    store@.contains_key(other) implies {
                                    &&& store@[other].id == other
                                    &&& tree_linked(store@[other])
                                    &&& match store@[other].parent {
                                        Some(up) => store@.contains_key(up)
                                            && store@[other].tree_level == store@[up].tree_level
                                            + 1,
                                        None => store@[other].tree_level == 0,
                                    }
                                } by {
                                    assert(before.contains_key(other));
                                }
                            }
                        }
                        assert(store_fits(before, *opts) ==> store_fits(store@, *opts)) by {
                            if store_fits(before, *opts) {
                                assert(before.contains_key(id));
                                assert forall|other: u64| #[trigger]
                                    store@.contains_key(other) implies tree_fits(
                                    store@[other],
                                    *opts,
                                ) && indent_fits(*opts, (store@[other].tree_level + 1) as nat) by {
                                    if other != id {
                                        assert(before.contains_key(other));
                                    }
                                }
                            }
                        }
                    },
                    None => {},
                }
                Ok(Vec::new())
            },
            None => {
                match record.serialize(opts) {
                    Ok(bytes) => {
                        let mut out: Vec<LineGroup> = Vec::new();
                        out.push(LineGroup { kind: LineKind::Event, stream: Stream::Stderr, bytes });
                        assert(matches_plan(
                            out@,
                            seq![Step::Event(record)],
                            *opts,
                            Stream::Stderr,
                        ));
                        assert(shows_event(out@, *event, event_span(before, current), *opts));
                        Ok(out)
                    },
                    Err(error) => Err(error),
                }
            },
        }
    }
}

} // verus!
