//! Visitors: they take the fields of a payload one by one and keep the last
//! value recorded under each name.
use crate::extension::{record_all, SpanExtension, Visit};
use crate::fields::{
    fields_view, has_name, lemma_with_field, lemma_without, message_name, names_distinct, recorded,
    value_of, without, Field, FieldMap, FieldView,
};
use vstd::prelude::*;

verus! {

/// Recording a payload into fields with distinct names leaves the names
/// distinct.
pub proof fn lemma_recorded_distinct(fields: Seq<FieldView>, payload: Seq<FieldView>)
    requires
        names_distinct(fields),
    ensures
        names_distinct(recorded(fields, payload)),
    decreases payload.len(),
{
    if payload.len() > 0 {
        lemma_recorded_distinct(fields, payload.drop_last());
        lemma_with_field(recorded(fields, payload.drop_last()), payload.last());
    }
}

impl Visit for FieldMap {
    open spec fn fields(&self) -> Seq<FieldView> {
        self@
    }

    fn record_debug(&mut self, name: &str, value: String) {
        self.insert(name, value);
    }
}

/// A span extension that records the attributes a span was created with.
#[derive(Debug)]
pub struct SpanExtAttrs {
    attrs: FieldMap,
}

impl View for SpanExtAttrs {
    type V = Seq<FieldView>;

    closed spec fn view(&self) -> Seq<FieldView> {
        self.attrs@
    }
}

impl Default for SpanExtAttrs {
    fn default() -> (r: Self)
        ensures
            r@ == Seq::<FieldView>::empty(),
    {
        SpanExtAttrs { attrs: FieldMap::new() }
    }
}

impl Visit for SpanExtAttrs {
    open spec fn fields(&self) -> Seq<FieldView> {
        self@
    }

    fn record_debug(&mut self, name: &str, value: String) {
        self.attrs.insert(name, value);
    }
}

impl SpanExtension for SpanExtAttrs {

}

impl SpanExtAttrs {
    /// The attributes recorded so far.
    pub fn attrs(&self) -> (r: &FieldMap)
        ensures
            r@ == self@,
    {
        &self.attrs
    }
}

/// A visitor for events: it keeps the fields of one event, the message
/// among them.
#[derive(Debug)]
pub struct EventVisitor {
    fields: FieldMap,
}

impl View for EventVisitor {
    type V = Seq<FieldView>;

    closed spec fn view(&self) -> Seq<FieldView> {
        self.fields@
    }
}

impl Default for EventVisitor {
    fn default() -> (r: Self)
        ensures
            r@ == Seq::<FieldView>::empty(),
    {
        EventVisitor { fields: FieldMap::new() }
    }
}

impl Visit for EventVisitor {
    open spec fn fields(&self) -> Seq<FieldView> {
        self@
    }

    fn record_debug(&mut self, name: &str, value: String) {
        self.fields.insert(name, value);
    }
}

impl EventVisitor {
    /// Records the fields of an event: each name once, with the value that
    /// the payload gives it last.
    pub fn record_event(payload: &Vec<Field>) -> (r: Self)
        ensures
            r@ == recorded(Seq::empty(), fields_view(payload@)),
            names_distinct(r@),
    {
        let mut fields = FieldMap::new();
        record_all(&mut fields, payload);
        proof {
            lemma_recorded_distinct(Seq::empty(), fields_view(payload@));
        }
        EventVisitor { fields }
    }

    /// Whether the event carries a message.
    pub fn has_message(&self) -> (r: bool)
        ensures
            r == has_name(self@, message_name()),
    {
        self.fields.contains("message")
    }

    /// The message of the event. An event without one breaks the contract
    /// of the event source.
    pub fn message(&self) -> (r: &str)
        requires
            has_name(self@, message_name()),
        ensures
            r@ == value_of(self@, message_name()),
    {
        self.fields.get("message").unwrap()
    }

    /// The fields of the event except the message, in their order.
    pub fn meta_fields(&self) -> (r: FieldMap)
        ensures
            r@ == without(self@, message_name()),
            !has_name(r@, message_name()),
            forall|i: int|
                0 <= i < self@.len() && (#[trigger] self@[i]).name != message_name()
                    ==> r@.contains(self@[i]),
            forall|k: int| 0 <= k < r@.len() ==> self@.contains(#[trigger] r@[k]),
            names_distinct(self@),
            names_distinct(r@),
            has_name(self@, message_name()) ==> r@.len() + 1 == self@.len(),
            !has_name(self@, message_name()) ==> r@ == self@,
    {
        proof {
            lemma_without(self@, message_name());
        }
        self.fields.without("message")
    }
}

} // verus!
