//! Named fields with repeated names: headers and query parameters.
//!
//! Each name has the list of its values in the order in which they came, and
//! the names are kept in the order in which they first came. Names are
//! compared as they stand, case and all.

use vstd::prelude::*;
use crate::table::Table;
use crate::text::texts;

verus! {

/// What a set of fields holds: for each name, its values, oldest first.
pub type FieldMap = Map<Seq<char>, Seq<Seq<char>>>;

/// A name with one of its values.
pub type Field = (Seq<char>, Seq<char>);

/// The fields with one more value under `name`.
pub open spec fn appended(m: FieldMap, name: Seq<char>, value: Seq<char>) -> FieldMap {
    if m.dom().contains(name) {
        m.insert(name, m[name].push(value))
    } else {
        m.insert(name, seq![value])
    }
}

/// The names in the order in which they first came, with `name` where it is
/// new.
pub open spec fn appended_names(
    names: Seq<Seq<char>>,
    m: FieldMap,
    name: Seq<char>,
) -> Seq<Seq<char>> {
    if m.dom().contains(name) {
        names
    } else {
        names.push(name)
    }
}

/// `name` with each of `values`.
pub open spec fn fields_named(name: Seq<char>, values: Seq<Seq<char>>) -> Seq<Field> {
    Seq::new(values.len(), |i: int| (name, values[i]))
}

/// The fields of `m` one by one: name after name in the order of `names`,
/// and the values of one name in their own order.
pub open spec fn fields_in_order(names: Seq<Seq<char>>, m: FieldMap) -> Seq<Field>
    decreases names.len(),
{
    if names.len() == 0 {
        Seq::empty()
    } else {
        fields_in_order(names.drop_last(), m) + fields_named(names.last(), m[names.last()])
    }
}

/// Every field listed for names of `m` carries one of those names.
pub proof fn lemma_fields_in_order_names(names: Seq<Seq<char>>, m: FieldMap)
    ensures
        forall|i: int|
            0 <= i < fields_in_order(names, m).len() ==> names.contains(
                (#[trigger] fields_in_order(names, m)[i]).0,
            ),
    decreases names.len(),
{
    if names.len() > 0 {
        let front = names.drop_last();
        lemma_fields_in_order_names(front, m);
        let all = fields_in_order(names, m);
        let head = fields_in_order(front, m);
        assert forall|i: int| 0 <= i < all.len() implies names.contains((#[trigger] all[i]).0) by {
            if i < head.len() {
                assert(all[i] == head[i]);
                let j = choose|j: int| 0 <= j < front.len() && front[j] == head[i].0;
                assert(names[j] == head[i].0);
            } else {
                assert(all[i].0 == names.last());
                assert(names[names.len() - 1] == names.last());
            }
        }
    }
}

/// Named fields. Their view gives, for each name, its values, oldest first.
pub struct Fields {
    table: Table<Vec<String>>,
}

impl View for Fields {
    type V = FieldMap;

    closed spec fn view(&self) -> FieldMap {
        Map::new(
            |name: Seq<char>| self.table@.dom().contains(name),
            |name: Seq<char>| texts(self.table@[name]@),
        )
    }
}

impl Fields {
    /// The names, in the order in which they first came.
    pub closed spec fn names(&self) -> Seq<Seq<char>> {
        self.table.keys()
    }

    /// No name occurs twice and every name has a value.
    pub closed spec fn wf(&self) -> bool {
        &&& self.table.wf()
        &&& forall|i: int|
            0 <= i < self.table.values().len() ==> (#[trigger] self.table.values()[i])@.len() > 0
    }

    /// The fields one by one, as [`fields_in_order`] lists them.
    pub open spec fn in_order(&self) -> Seq<Field> {
        fields_in_order(self.names(), self@)
    }

    /// The names are those that have values, each once, and each has at least
    /// one value.
    pub proof fn lemma_names(&self)
        requires
            self.wf(),
        ensures
            self.names().no_duplicates(),
            forall|name: Seq<char>| self.names().contains(name) <==> self@.dom().contains(name),
            forall|name: Seq<char>|
                self@.dom().contains(name) ==> (#[trigger] self@[name]).len() > 0,
    {
        self.table.lemma_view();
        assert forall|name: Seq<char>| self@.dom().contains(name) implies (#[trigger] self@[
            name
        ]).len() > 0 by {
            let i = self.table.keys().index_of(name);
            assert(self.table.values()[i]@.len() > 0);
        }
    }

    /// No fields.
    pub fn new() -> (f: Fields)
        ensures
            f.wf(),
            f@ == FieldMap::empty(),
            f.names() == Seq::<Seq<char>>::empty(),
    {
        let f = Fields { table: Table::new() };
        assert(f@ =~= FieldMap::empty());
        f
    }

    /// Adds `value` as the latest value of `name`.
    pub fn append(&mut self, name: String, value: String)
        requires
            old(self).wf(),
        ensures
            final(self).wf(),
            final(self)@ == appended(old(self)@, name@, value@),
            final(self).names() == appended_names(old(self).names(), old(self)@, name@),
    {
        proof {
            self.table.lemma_view();
        }
        match self.table.position(name.as_str()) {
            Some(i) => {
                let values = self.table.value_mut(i);
                values.push(value);
                proof {
                    self.table.lemma_view();
                    assert(texts(self.table.values()[i as int]@) =~= texts(
                        old(self).table.values()[i as int]@,
                    ).push(value@));
                    assert(self@ =~~= appended(old(self)@, name@, value@));
                }
            },
            None => {
                let mut values: Vec<String> = Vec::new();
                values.push(value);
                self.table.push(name, values);
                proof {
                    self.table.lemma_view();
                    assert(texts(values@) =~= seq![value@]);
                    assert(self@ =~~= appended(old(self)@, name@, value@));
                }
            },
        }
    }

    /// Whether any value stands under `name`.
    pub fn contains(&self, name: &str) -> (r: bool)
        requires
            self.wf(),
        ensures
            r == self@.dom().contains(name@),
    {
        self.table.position(name).is_some()
    }

    /// The values of `name`, oldest first, if it has any.
    pub fn get(&self, name: &str) -> (r: Option<&Vec<String>>)
        requires
            self.wf(),
        ensures
            match r {
                Some(values) => self@.dom().contains(name@) && texts(values@) == self@[name@]
                    && values@.len() > 0,
                None => !self@.dom().contains(name@),
            },
    {
        proof {
            self.table.lemma_view();
        }
        match self.table.position(name) {
            Some(i) => Some(self.table.value(i)),
            None => None,
        }
    }

    /// The oldest value of `name`, if it has any.
    pub fn first(&self, name: &str) -> (r: Option<&String>)
        requires
            self.wf(),
        ensures
            match r {
                Some(value) => self@.dom().contains(name@) && value@ == self@[name@][0],
                None => !self@.dom().contains(name@),
            },
    {
        match self.get(name) {
            Some(values) => Some(&values[0]),
            None => None,
        }
    }

    /// The number of names.
    pub fn len(&self) -> (n: usize)
        requires
            self.wf(),
        ensures
            n == self.names().len(),
    {
        self.table.len()
    }

    /// The name at position `i`.
    pub fn name_at(&self, i: usize) -> (name: &String)
        requires
            self.wf(),
            i < self.names().len(),
        ensures
            name@ == self.names()[i as int],
    {
        self.table.key(i)
    }

    /// The values of the name at position `i`.
    pub fn values_at(&self, i: usize) -> (values: &Vec<String>)
        requires
            self.wf(),
            i < self.names().len(),
        ensures
            self@.dom().contains(self.names()[i as int]),
            texts(values@) == self@[self.names()[i as int]],
    {
        self.table.value(i)
    }
}

} // verus!
