//! Span extensions: the records that can be kept for a span, each type in
//! a store of its own.
use crate::fields::{fields_view, recorded, with_field, Field, FieldView};
use crate::store::SpanStore;
use vstd::prelude::*;

verus! {

/// A visitor of fields: it takes them one by one, each by its name and
/// its formatted value.
pub trait Visit {
    /// The fields recorded so far.
    spec fn fields(&self) -> Seq<FieldView>;

    /// Records one field. A field of that name takes the new value where
    /// it stands; a new name is added after the others.
    fn record_debug(&mut self, name: &str, value: String)
        ensures
            final(self).fields() == with_field(
                old(self).fields(),
                FieldView { name: name@, value: value@ },
            ),
    ;
}

/// A span extension: a record of its type can be kept for each span.
pub trait SpanExtension: Sized {
    /// Initializes the extension: the span gets a record with the default
    /// value unless it has one.
    fn init(store: &mut SpanStore<Self>, id: u64) where Self: Default
        ensures
            old(store)@.contains_key(id) ==> final(store)@ == old(store)@,
            !old(store)@.contains_key(id) ==> final(store)@ == old(store)@.insert(
                id,
                final(store)@[id],
            ),
            !old(store)@.contains_key(id) ==> call_ensures(Self::default, (), final(store)@[id]),
    {
        if !store.contains(id) {
            store.init(id, Self::default());
        }
    }

    /// Records the span attributes for the extension. A span without a
    /// record of this type breaks the contract: initialize it first.
    fn record_attrs(store: &mut SpanStore<Self>, id: u64, attrs: &Vec<Field>) where Self: Visit
        requires
            old(store)@.contains_key(id),
        ensures
            final(store)@ == old(store)@.insert(id, final(store)@[id]),
            final(store)@[id].fields() == recorded(old(store)@[id].fields(), fields_view(attrs@)),
    {
        let ghost before = store@;
        match store.remove(id) {
            Some(extension) => {
                let mut extension = extension;
                record_all(&mut extension, attrs);
                store.replace(id, extension);
                assert(store@ =~= before.insert(id, store@[id]));
            },
            None => {},
        }
    }
}

/// Records every field of `payload` into `visitor`, in order.
pub fn record_all<V: Visit>(visitor: &mut V, payload: &Vec<Field>)
    ensures
        final(visitor).fields() == recorded(old(visitor).fields(), fields_view(payload@)),
{
    let mut i: usize = 0;
    let ghost start = visitor.fields();
    assert(fields_view(payload@).take(0) =~= Seq::<FieldView>::empty());
    while i < payload.len()
        invariant
            i <= payload.len(),
            visitor.fields() == recorded(start, fields_view(payload@).take(i as int)),
        decreases payload.len() - i,
    {
        let field = &payload[i];
        proof {
            let next = fields_view(payload@).take(i + 1);
            assert(next.drop_last() =~= fields_view(payload@).take(i as int));
            assert(next.last() == field@);
        }
        visitor.record_debug(field.name.as_str(), field.value.clone());
        i = i + 1;
    }
    assert(fields_view(payload@).take(i as int) =~= fields_view(payload@));
}

} // verus!
