//! Named values: a list of names with their values, each name once.

use vstd::prelude::*;

verus! {

/// The model of a [`FieldMap`]: names with their values.
pub type Fields = Seq<(Seq<char>, Seq<char>)>;

/// The index of the first field of `fields` with the name `name`, at or after
/// `from`; `fields.len()` if there is none.
pub open spec fn field_index_from(fields: Fields, name: Seq<char>, from: int) -> int
    decreases fields.len() - from,
{
    if from < 0 || from >= fields.len() {
        fields.len() as int
    } else if fields[from].0 == name {
        from
    } else {
        field_index_from(fields, name, from + 1)
    }
}

/// The index of the first field with the name `name`, or `fields.len()`.
pub open spec fn field_index(fields: Fields, name: Seq<char>) -> int {
    field_index_from(fields, name, 0)
}

/// The value of the field `name`, if there is such a field.
pub open spec fn field_value(fields: Fields, name: Seq<char>) -> Option<Seq<char>> {
    if field_index(fields, name) < fields.len() {
        Some(fields[field_index(fields, name)].1)
    } else {
        None
    }
}

/// `fields` with the field `name` set to `value`: in place where there is
/// such a field, at the end where there is none.
pub open spec fn with_field(fields: Fields, name: Seq<char>, value: Seq<char>) -> Fields {
    let i = field_index(fields, name);
    if i < fields.len() {
        fields.update(i, (name, value))
    } else {
        fields.push((name, value))
    }
}

/// No name stands twice in `fields`.
pub open spec fn distinct_names(fields: Fields) -> bool {
    forall|i: int, j: int| 0 <= i < j < fields.len() ==> fields[i].0 != fields[j].0
}

/// `field_index_from` gives the first field at or after `from` with the
/// name.
pub proof fn lemma_field_index(fields: Fields, name: Seq<char>, from: int)
    requires
        0 <= from <= fields.len(),
    ensures
        from <= field_index_from(fields, name, from) <= fields.len(),
        field_index_from(fields, name, from) < fields.len() ==> fields[field_index_from(
            fields,
            name,
            from,
        )].0 == name,
        forall|i: int| from <= i < field_index_from(fields, name, from) ==> fields[i].0 != name,
    decreases fields.len() - from,
{
    if from < fields.len() && fields[from].0 != name {
        lemma_field_index(fields, name, from + 1);
    }
}

/// Setting a field gives it the value, leaves every other field as it was,
/// and keeps the names distinct.
pub proof fn lemma_with_field(fields: Fields, name: Seq<char>, value: Seq<char>, other: Seq<char>)
    ensures
        field_value(with_field(fields, name, value), name) == Some(value),
        other != name ==> field_value(with_field(fields, name, value), other) == field_value(
            fields,
            other,
        ),
        distinct_names(fields) ==> distinct_names(with_field(fields, name, value)),
{
    let after = with_field(fields, name, value);
    let i = field_index(fields, name);
    lemma_field_index(fields, name, 0);
    lemma_field_index(fields, other, 0);
    lemma_field_index(after, name, 0);
    lemma_field_index(after, other, 0);
    let j = field_index(after, name);
    assert(after[i].0 == name);
    if j < i {
        assert(fields[j].0 == after[j].0);
    }
    assert(j == i);
    if other != name {
        let a = field_index(fields, other);
        let b = field_index(after, other);
        if a < fields.len() {
            assert(after[a].0 == other);
        }
        if b < after.len() {
            assert(b < fields.len());
            assert(fields[b].0 == after[b].0);
        }
        if a < b && a < fields.len() {
            assert(after[a].0 == fields[a].0);
        }
        if b < a && b < fields.len() {
            assert(fields[b].0 == after[b].0);
        }
        assert(a < fields.len() ==> a == b);
        assert(a == fields.len() ==> b == after.len());
    }
    if distinct_names(fields) {
        assert forall|a: int, b: int| 0 <= a < b < after.len() implies after[a].0 != after[b].0 by {
            if b < fields.len() {
                assert(after[a].0 == fields[a].0);
                assert(after[b].0 == fields[b].0);
            } else {
                assert(after[a].0 == fields[a].0);
            }
        }
    }
}

/// Named values, each name once, in the order in which the names were first
/// set.
#[derive(Debug, Clone)]
pub struct FieldMap {
    fields: Vec<(String, String)>,
}

impl View for FieldMap {
    type V = Fields;

    closed spec fn view(&self) -> Fields {
        Seq::new(self.fields@.len(), |i: int| (self.fields@[i].0@, self.fields@[i].1@))
    }
}

impl FieldMap {
    /// No fields.
    pub fn new() -> (map: FieldMap)
        ensures
            map@ == Seq::<(Seq<char>, Seq<char>)>::empty(),
    {
        FieldMap { fields: Vec::new() }
    }

    fn find(&self, name: &String) -> (i: usize)
        ensures
            i == field_index(self@, name@),
            i <= self.fields@.len(),
            self@.len() == self.fields@.len(),
    {
        let mut i: usize = 0;
        while i < self.fields.len() && !(self.fields[i].0 == *name)
            invariant
                i <= self.fields@.len(),
                self@.len() == self.fields@.len(),
                field_index(self@, name@) == field_index_from(self@, name@, i as int),
            decreases self.fields@.len() - i,
        {
            i += 1;
        }
        i
    }

    /// Sets the field `name` to `value`.
    pub fn insert(&mut self, name: String, value: String)
        ensures
            final(self)@ == with_field(old(self)@, name@, value@),
    {
        let i: usize = self.find(&name);
        if i < self.fields.len() {
            self.fields.set(i, (name, value));
        } else {
            self.fields.push((name, value));
        }
        assert(self@ =~= with_field(old(self)@, name@, value@));
    }

    /// The value of the field `name`.
    pub fn get(&self, name: &str) -> (value: Option<&String>)
        ensures
            match value {
                Some(v) => field_value(self@, name@) == Some(v@),
                None => field_value(self@, name@) is None,
            },
    {
        let owned: String = name.to_owned();
        let i: usize = self.find(&owned);
        if i < self.fields.len() {
            Some(&self.fields[i].1)
        } else {
            None
        }
    }

    /// The number of fields.
    pub fn len(&self) -> (n: usize)
        ensures
            n == self@.len(),
    {
        self.fields.len()
    }

    /// Whether there is no field.
    pub fn is_empty(&self) -> (b: bool)
        ensures
            b == (self@.len() == 0),
    {
        self.fields.len() == 0
    }

    /// The name of the field at `i`.
    pub fn name_at(&self, i: usize) -> (name: &String)
        requires
            i < self@.len(),
        ensures
            name@ == self@[i as int].0,
    {
        &self.fields[i].0
    }

    /// The value of the field at `i`.
    pub fn value_at(&self, i: usize) -> (value: &String)
        requires
            i < self@.len(),
        ensures
            value@ == self@[i as int].1,
    {
        &self.fields[i].1
    }

    /// A copy of the fields.
    pub fn duplicate(&self) -> (copy: FieldMap)
        ensures
            copy@ == self@,
    {
        let mut fields: Vec<(String, String)> = Vec::new();
        let mut i: usize = 0;
        while i < self.fields.len()
            invariant
                i <= self.fields@.len(),
                fields@.len() == i,
                forall|k: int|
                    0 <= k < i ==> (#[trigger] fields@[k]).0@ == self.fields@[k].0@ && fields@[k].1@
                        == self.fields@[k].1@,
            decreases self.fields@.len() - i,
        {
            fields.push((self.fields[i].0.clone(), self.fields[i].1.clone()));
            i += 1;
        }
        let copy = FieldMap { fields };
        assert(copy@ =~= self@);
        copy
    }
}

} // verus!
