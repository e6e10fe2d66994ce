//! Named fields of spans and events: an ordered map from field names to
//! formatted values, and the visitors that collect a payload into one.
use vstd::prelude::*;

verus! {

/// The name under which an event carries its human-readable text.
pub open spec fn message_name() -> Seq<char> {
    "message"@
}

/// One field of a payload: its name and its formatted value.
#[derive(Debug)]
pub struct Field {
    pub name: String,
    pub value: String,
}

/// What a [`Field`] stands for.
pub struct FieldView {
    pub name: Seq<char>,
    pub value: Seq<char>,
}

impl View for Field {
    type V = FieldView;

    open spec fn view(&self) -> FieldView {
        FieldView { name: self.name@, value: self.value@ }
    }
}

/// A list of fields, each by its view.
pub open spec fn fields_view(fields: Seq<Field>) -> Seq<FieldView> {
    Seq::new(fields.len(), |i: int| fields[i]@)
}

/// Some field of `fields` is called `name`.
pub open spec fn has_name(fields: Seq<FieldView>, name: Seq<char>) -> bool {
    exists|i: int| 0 <= i < fields.len() && (#[trigger] fields[i]).name == name
}

/// No two fields share a name.
pub open spec fn names_distinct(fields: Seq<FieldView>) -> bool {
    forall|i: int, j: int|
        0 <= i < j < fields.len() ==> (#[trigger] fields[i]).name != (#[trigger] fields[j]).name
}

/// The place of the first field called `name`, or the number of fields
/// where none is.
pub open spec fn index_of(fields: Seq<FieldView>, name: Seq<char>) -> int
    decreases fields.len(),
{
    if fields.len() == 0 {
        0
    } else {
        let before = index_of(fields.drop_last(), name);
        if before < fields.len() - 1 {
            before
        } else if fields.last().name == name {
            fields.len() - 1
        } else {
            fields.len() as int
        }
    }
}

/// `index_of` finds the first field of the name, and runs to the end
/// exactly when there is none.
pub proof fn lemma_index_of(fields: Seq<FieldView>, name: Seq<char>)
    ensures
        0 <= index_of(fields, name) <= fields.len(),
        index_of(fields, name) < fields.len() ==> fields[index_of(fields, name)].name == name,
        forall|k: int| 0 <= k < index_of(fields, name) ==> (#[trigger] fields[k]).name != name,
        has_name(fields, name) <==> index_of(fields, name) < fields.len(),
    decreases fields.len(),
{
    if fields.len() > 0 {
        let init = fields.drop_last();
        lemma_index_of(init, name);
        let at = index_of(fields, name);
        assert forall|k: int| 0 <= k < at implies (#[trigger] fields[k]).name != name by {
            if k < init.len() {
                assert(init[k] == fields[k]);
            }
        }
        if at < fields.len() {
            assert(fields[at].name == name);
        }
        if has_name(fields, name) {
            let w = choose|w: int| 0 <= w < fields.len() && (#[trigger] fields[w]).name == name;
            assert(at <= w);
        }
    }
}

/// The value of the field called `name`.
pub open spec fn value_of(fields: Seq<FieldView>, name: Seq<char>) -> Seq<char> {
    fields[index_of(fields, name)].value
}

/// `fields` after recording `field`: a field of that name takes the new
/// value where it stands, a new name goes to the end.
pub open spec fn with_field(fields: Seq<FieldView>, field: FieldView) -> Seq<FieldView> {
    if has_name(fields, field.name) {
        fields.update(index_of(fields, field.name), field)
    } else {
        fields.push(field)
    }
}

/// `fields` after recording a whole payload, field by field.
pub open spec fn recorded(fields: Seq<FieldView>, payload: Seq<FieldView>) -> Seq<FieldView>
    decreases payload.len(),
{
    if payload.len() == 0 {
        fields
    } else {
        with_field(recorded(fields, payload.drop_last()), payload.last())
    }
}

/// `fields` without those called `name`, the others in their order.
pub open spec fn without(fields: Seq<FieldView>, name: Seq<char>) -> Seq<FieldView>
    decreases fields.len(),
{
    if fields.len() == 0 {
        Seq::empty()
    } else if fields.last().name == name {
        without(fields.drop_last(), name)
    } else {
        without(fields.drop_last(), name).push(fields.last())
    }
}

/// Every field of `without(fields, name)` is a field of `fields` with
/// another name, and every such field of `fields` is kept with its value.
pub proof fn lemma_without(fields: Seq<FieldView>, name: Seq<char>)
    ensures
        !has_name(without(fields, name), name),
        without(fields, name).len() <= fields.len(),
        forall|k: int|
            0 <= k < without(fields, name).len() ==> fields.contains(
                #[trigger] without(fields, name)[k],
            ),
        forall|i: int|
            0 <= i < fields.len() && (#[trigger] fields[i]).name != name ==> without(
                fields,
                name,
            ).contains(fields[i]),
        names_distinct(fields) ==> names_distinct(without(fields, name)),
        !has_name(fields, name) ==> without(fields, name) == fields,
        names_distinct(fields) && has_name(fields, name) ==> without(fields, name).len() + 1
            == fields.len(),
    decreases fields.len(),
{
    if fields.len() > 0 {
        let init = fields.drop_last();
        let rest = without(init, name);
        let out = without(fields, name);
        lemma_without(init, name);
        if has_name(init, name) {
            let w = choose|w: int| 0 <= w < init.len() && (#[trigger] init[w]).name == name;
            assert(fields[w].name == name);
        }
        if !has_name(fields, name) {
            assert(fields[fields.len() - 1].name != name);
            assert(out =~= fields);
        }
        if names_distinct(fields) && has_name(fields, name) {
            let w = choose|w: int| 0 <= w < fields.len() && (#[trigger] fields[w]).name == name;
            if fields.last().name == name {
                if has_name(init, name) {
                    let v = choose|v: int| 0 <= v < init.len() && (#[trigger] init[v]).name == name;
                    assert(fields[v].name != fields[fields.len() - 1].name);
                }
            } else {
                assert(init[w].name == name);
                assert(names_distinct(init)) by {
                    assert forall|i: int, j: int| 0 <= i < j < init.len() implies (
                    #[trigger] init[i]).name != (#[trigger] init[j]).name by {
                        assert(fields[i].name != fields[j].name);
                    }
                }
            }
        }
        assert forall|k: int| 0 <= k < out.len() implies fields.contains(#[trigger] out[k]) by {
            if k < rest.len() {
                assert(init.contains(rest[k]));
                let w = choose|w: int| 0 <= w < init.len() && init[w] == rest[k];
                assert(fields[w] == out[k]);
            } else {
                assert(fields[fields.len() - 1] == out[k]);
            }
        }
        assert forall|i: int|
            0 <= i < fields.len() && (#[trigger] fields[i]).name != name implies out.contains(
            fields[i],
        ) by {
            if i < init.len() {
                assert(init[i] == fields[i]);
                assert(rest.contains(init[i]));
                let w = choose|w: int| 0 <= w < rest.len() && rest[w] == init[i];
                assert(out[w] == fields[i]);
            } else {
                assert(out[out.len() - 1] == fields[i]);
            }
        }
        if names_distinct(fields) {
            assert(names_distinct(init)) by {
                assert forall|i: int, j: int| 0 <= i < j < init.len() implies (
                #[trigger] init[i]).name != (#[trigger] init[j]).name by {
                    assert(fields[i].name != fields[j].name);
                }
            }
            assert forall|i: int, j: int| 0 <= i < j < out.len() implies (#[trigger] out[i]).name
                != (#[trigger] out[j]).name by {
                if j < rest.len() {
                    assert(rest[i].name != rest[j].name);
                } else {
                    assert(init.contains(rest[i]));
                    let w = choose|w: int| 0 <= w < init.len() && init[w] == rest[i];
                    assert(fields[w].name != fields[fields.len() - 1].name);
                }
            }
        }
        if has_name(out, name) {
            let k = choose|k: int| 0 <= k < out.len() && (#[trigger] out[k]).name == name;
            if k < rest.len() {
                assert(rest[k].name == name);
            }
        }
    }
}

/// Recording a field keeps the names distinct, puts the value under the
/// name, and leaves the fields of other names as they were.
pub proof fn lemma_with_field(fields: Seq<FieldView>, field: FieldView)
    ensures
        has_name(with_field(fields, field), field.name),
        value_of(with_field(fields, field), field.name) == field.value,
        names_distinct(fields) ==> names_distinct(with_field(fields, field)),
        forall|name: Seq<char>|
            name != field.name ==> (#[trigger] has_name(with_field(fields, field), name))
                == has_name(fields, name),
        forall|name: Seq<char>|
            name != field.name && has_name(fields, name) ==> (#[trigger] value_of(
                with_field(fields, field),
                name,
            )) == value_of(fields, name),
{
    let out = with_field(fields, field);
    let at = index_of(fields, field.name);
    lemma_index_of(fields, field.name);
    lemma_index_of(out, field.name);
    assert(out[at] == field);
    assert forall|k: int| 0 <= k < fields.len() implies (#[trigger] out[k]).name
        == fields[k].name by {}
    assert(index_of(out, field.name) == at) by {
        let b = index_of(out, field.name);
        assert(out[at].name == field.name);
        if b < at {
            assert(out[b].name == field.name);
            assert(fields[b].name != field.name);
        }
    }
    if names_distinct(fields) {
        assert forall|i: int, j: int| 0 <= i < j < out.len() implies (#[trigger] out[i]).name != (
        #[trigger] out[j]).name by {
            if j < fields.len() {
                assert(fields[i].name != fields[j].name);
            } else {
                assert(fields[i].name != field.name);
            }
        }
    }
    assert forall|name: Seq<char>| name != field.name implies (#[trigger] has_name(out, name))
        == has_name(fields, name) by {
        lemma_same_names(fields, out, name, field);
    }
    assert forall|name: Seq<char>| name != field.name && has_name(fields, name) implies (
    #[trigger] value_of(out, name)) == value_of(fields, name) by {
        lemma_same_names(fields, out, name, field);
    }
}

proof fn lemma_same_names(
    fields: Seq<FieldView>,
    out: Seq<FieldView>,
    name: Seq<char>,
    field: FieldView,
)
    requires
        out == with_field(fields, field),
        name != field.name,
    ensures
        has_name(out, name) == has_name(fields, name),
        has_name(fields, name) ==> index_of(out, name) == index_of(fields, name) && out[index_of(
            out,
            name,
        )] == fields[index_of(fields, name)],
{
    lemma_index_of(fields, name);
    lemma_index_of(out, name);
    lemma_index_of(fields, field.name);
    let a = index_of(fields, name);
    let b = index_of(out, name);
    assert forall|k: int| 0 <= k < fields.len() implies (#[trigger] out[k]).name
        == fields[k].name by {}
    if a < fields.len() {
        assert(out[a].name == name);
        if b < a {
            assert(out[b].name == name);
            assert(fields[b].name == name);
        }
        if a < b {
            assert(out[a].name != name);
        }
        assert(out[a] == fields[a]);
    }
    if b < out.len() {
        assert(out[b].name == name);
        assert(b < fields.len());
        assert(fields[b].name == name);
    }
}

/// Fields in the order in which their names were first recorded. No name
/// occurs twice.
#[derive(Debug)]
pub struct FieldMap {
    entries: Vec<Field>,
}

impl View for FieldMap {
    type V = Seq<FieldView>;

    closed spec fn view(&self) -> Seq<FieldView> {
        fields_view(self.entries@)
    }
}

impl FieldMap {
    #[verifier::type_invariant]
    spec fn distinct(self) -> bool {
        names_distinct(fields_view(self.entries@))
    }

    /// A map without fields.
    pub fn new() -> (r: Self)
        ensures
            r@ == Seq::<FieldView>::empty(),
    {
        let r = FieldMap { entries: Vec::new() };
        assert(r@ =~= Seq::<FieldView>::empty());
        r
    }

    /// The number of fields, each under a name of its own.
    pub fn len(&self) -> (n: usize)
        ensures
            n == self@.len(),
            names_distinct(self@),
    {
        proof {
            use_type_invariant(self);
        }
        self.entries.len()
    }

    /// The fields in their order. No two of them share a name.
    pub fn entries(&self) -> (r: &Vec<Field>)
        ensures
            fields_view(r@) == self@,
            names_distinct(self@),
    {
        proof {
            use_type_invariant(self);
        }
        &self.entries
    }

    fn position(&self, name: &String) -> (r: Option<usize>)
        ensures
            match r {
                Some(i) => i < self@.len() && has_name(self@, name@) && index_of(self@, name@) == i,
                None => !has_name(self@, name@),
            },
    {
        proof {
            lemma_index_of(self@, name@);
        }
        let mut i: usize = 0;
        while i < self.entries.len()
            invariant
                i <= self.entries.len(),
                forall|k: int| 0 <= k < i ==> (#[trigger] self@[k]).name != name@,
            decreases self.entries.len() - i,
        {
            if self.entries[i].name == *name {
                proof {
                    let at = index_of(self@, name@);
                    lemma_index_of(self@, name@);
                    assert(self@[i as int].name == name@);
                    assert(has_name(self@, name@));
                    if at < i {
                        assert(self@[at].name == name@);
                    }
                }
                return Some(i);
            }
            i = i + 1;
        }
        None
    }

    /// Whether a field is called `name`.
    pub fn contains(&self, name: &str) -> (r: bool)
        ensures
            r == has_name(self@, name@),
    {
        let key = name.to_owned();
        self.position(&key).is_some()
    }

    /// The value recorded under `name`, if there is one.
    pub fn get(&self, name: &str) -> (r: Option<&str>)
        ensures
            match r {
                Some(value) => has_name(self@, name@) && value@ == value_of(self@, name@),
                None => !has_name(self@, name@),
            },
    {
        let key = name.to_owned();
        match self.position(&key) {
            Some(i) => Some(self.entries[i].value.as_str()),
            None => None,
        }
    }

    /// Records `value` under `name`. A field of that name takes the new
    /// value; a new name is added after the others.
    pub fn insert(&mut self, name: &str, value: String)
        ensures
            final(self)@ == with_field(old(self)@, FieldView { name: name@, value: value@ }),
            names_distinct(final(self)@),
    {
        let key = name.to_owned();
        let found = self.position(&key);
        let ghost before = self@;
        let ghost field = FieldView { name: name@, value: value@ };
        proof {
            use_type_invariant(&*self);
            lemma_with_field(before, field);
        }
        let mut taken = FieldMap::new();
        std::mem::swap(self, &mut taken);
        let FieldMap { entries } = taken;
        let mut entries = entries;
        match found {
            Some(i) => {
                proof {
                    lemma_index_of(before, name@);
                    assert(fields_view(entries@.update(i as int, Field { name: key, value: value }))
                        =~= before.update(i as int, field));
                }
                entries.set(i, Field { name: key, value });
            },
            None => {
                proof {
                    assert(fields_view(entries@.push(Field { name: key, value: value }))
                        =~= before.push(field));
                }
                entries.push(Field { name: key, value });
            },
        }
        let mut next = FieldMap { entries };
        std::mem::swap(self, &mut next);
    }

    /// The fields that are not called `name`, in their order.
    pub fn without(&self, name: &str) -> (r: FieldMap)
        ensures
            r@ == without(self@, name@),
            names_distinct(self@),
            names_distinct(r@),
    {
        let key = name.to_owned();
        let mut kept: Vec<Field> = Vec::new();
        let mut i: usize = 0;
        while i < self.entries.len()
            invariant
                i <= self.entries.len(),
                key@ == name@,
                fields_view(kept@) == without(self@.take(i as int), name@),
            decreases self.entries.len() - i,
        {
            let entry = &self.entries[i];
            proof {
                let next = self@.take(i + 1);
                assert(next.drop_last() =~= self@.take(i as int));
                assert(next.last() == entry@);
            }
            if !(entry.name == key) {
                let copy = Field { name: entry.name.clone(), value: entry.value.clone() };
                assert(fields_view(kept@.push(copy)) =~= fields_view(kept@).push(entry@));
                kept.push(copy);
            }
            i = i + 1;
        }
        proof {
            assert(self@.take(i as int) =~= self@);
            use_type_invariant(self);
            lemma_without(self@, name@);
        }
        FieldMap { entries: kept }
    }
}

} // verus!
