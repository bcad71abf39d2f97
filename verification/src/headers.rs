//! Header fields: a finite map from names to values that remembers the
//! order in which the names were first inserted.
use crate::text::{index_of, lemma_index_of, lemma_index_of_is, same_text};
use vstd::prelude::*;

verus! {

/// The names of `fields`, in order.
pub open spec fn keys(fields: Seq<(Seq<char>, Seq<char>)>) -> Seq<Seq<char>> {
    Seq::new(fields.len(), |i: int| fields[i].0)
}

/// No name occurs twice in `fields`.
pub open spec fn distinct_keys(fields: Seq<(Seq<char>, Seq<char>)>) -> bool {
    forall|i: int, j: int| 0 <= i < j < fields.len() ==> fields[i].0 != fields[j].0
}

/// The map that `fields` stands for: each name that occurs, with the value
/// of its first occurrence.
pub open spec fn field_map(fields: Seq<(Seq<char>, Seq<char>)>) -> Map<Seq<char>, Seq<char>> {
    Map::new(
        |k: Seq<char>| keys(fields).contains(k),
        |k: Seq<char>| fields[index_of(keys(fields), k) as int].1,
    )
}

/// `fields` after `key` is given `value`: in place where `key` occurs, at
/// the end where it does not.
pub open spec fn with_field(
    fields: Seq<(Seq<char>, Seq<char>)>,
    key: Seq<char>,
    value: Seq<char>,
) -> Seq<(Seq<char>, Seq<char>)> {
    let i = index_of(keys(fields), key) as int;
    if i < fields.len() {
        fields.update(i, (key, value))
    } else {
        fields.push((key, value))
    }
}

/// Giving `key` a value in the sequence is an insertion into the map, and
/// keeps the names distinct.
pub proof fn lemma_with_field(
    fields: Seq<(Seq<char>, Seq<char>)>,
    key: Seq<char>,
    value: Seq<char>,
)
    ensures
        field_map(with_field(fields, key, value)) == field_map(fields).insert(key, value),
        distinct_keys(fields) ==> distinct_keys(with_field(fields, key, value)),
{
    let after = with_field(fields, key, value);
    let i = index_of(keys(fields), key) as int;
    lemma_index_of(keys(fields), key);
    if i < fields.len() {
        assert(keys(after) =~= keys(fields));
    } else {
        assert(keys(after) =~= keys(fields).push(key));
        assert(keys(after)[fields.len() as int] == key);
    }
    assert forall|k: Seq<char>| keys(after).contains(k) <==> (k == key || keys(fields).contains(
        k,
    )) by {
        if keys(fields).contains(k) {
            let j = choose|j: int| 0 <= j < keys(fields).len() && keys(fields)[j] == k;
            assert(keys(after)[j] == k);
        }
        if k == key {
            if i < fields.len() {
                assert(keys(after)[i] == k);
            }
        }
    }
    assert forall|k: Seq<char>| keys(after).contains(k) implies #[trigger] field_map(after)[k]
        == field_map(fields).insert(key, value)[k] by {
        lemma_index_of(keys(fields), k);
        let j = index_of(keys(fields), k) as int;
        if i < fields.len() {
        } else {
            lemma_index_of_is(keys(after), k, j);
        }
    }
    assert(field_map(after) =~= field_map(fields).insert(key, value));
    if distinct_keys(fields) {
        assert forall|a: int, b: int| 0 <= a < b < after.len() implies after[a].0 != after[b].0 by {
            if i < fields.len() {
                assert(keys(fields)[i] == key);
            } else if b == fields.len() {
                assert(keys(fields)[a] != key);
            }
        }
    }
}

/// Fields with distinct names stand for a map with as many entries.
pub proof fn lemma_field_count(fields: Seq<(Seq<char>, Seq<char>)>)
    requires
        distinct_keys(fields),
    ensures
        field_map(fields).dom().finite(),
        field_map(fields).len() == fields.len(),
    decreases fields.len(),
{
    if fields.len() == 0 {
        assert(field_map(fields).dom() =~= Set::<Seq<char>>::empty());
    } else {
        let init = fields.drop_last();
        let last = fields.last();
        lemma_field_count(init);
        assert forall|k: Seq<char>| field_map(fields).dom().contains(k) <==> field_map(
            init,
        ).dom().insert(last.0).contains(k) by {
            if keys(fields).contains(k) {
                let j = choose|j: int| 0 <= j < keys(fields).len() && keys(fields)[j] == k;
                if j < init.len() {
                    assert(keys(init)[j] == k);
                }
            }
            if keys(init).contains(k) {
                let j = choose|j: int| 0 <= j < keys(init).len() && keys(init)[j] == k;
                assert(keys(fields)[j] == k);
            }
            if k == last.0 {
                assert(keys(fields)[fields.len() - 1] == k);
            }
        }
        assert(field_map(fields).dom() =~= field_map(init).dom().insert(last.0));
        if keys(init).contains(last.0) {
            let j = choose|j: int| 0 <= j < keys(init).len() && keys(init)[j] == last.0;
            assert(fields[j].0 == fields[fields.len() - 1].0);
        }
    }
}

/// The text of one header line: name, colon, value, line end.
pub open spec fn field_line(field: (Seq<char>, Seq<char>)) -> Seq<char> {
    field.0 + ":"@ + field.1 + "\r\n"@
}

/// The header lines of `fields`, one after the other in their order.
pub open spec fn header_block(fields: Seq<(Seq<char>, Seq<char>)>) -> Seq<char>
    decreases fields.len(),
{
    if fields.len() == 0 {
        Seq::empty()
    } else {
        header_block(fields.drop_last()) + field_line(fields.last())
    }
}

/// The stored pairs as pairs of character sequences.
spec fn views(entries: Seq<(String, String)>) -> Seq<(Seq<char>, Seq<char>)> {
    Seq::new(entries.len(), |i: int| (entries[i].0@, entries[i].1@))
}

/// Header fields with distinct names, kept in the order in which the names
/// were first inserted.
#[derive(Debug)]
pub struct Headers {
    entries: Vec<(String, String)>,
}

impl View for Headers {
    type V = Map<Seq<char>, Seq<char>>;

    /// The fields as a map from names to values.
    open spec fn view(&self) -> Map<Seq<char>, Seq<char>> {
        field_map(self.fields())
    }
}

impl Clone for Headers {
    /// A copy with the same fields in the same order.
    fn clone(&self) -> (copy: Headers)
        ensures
            copy.fields() == self.fields(),
    {
        proof {
            use_type_invariant(self);
        }
        let mut entries: Vec<(String, String)> = Vec::new();
        let mut i: usize = 0;
        while i < self.entries.len()
            invariant
                i <= self.entries@.len(),
                entries@.len() == i,
                views(entries@) == views(self.entries@).take(i as int),
            decreases self.entries@.len() - i,
        {
            let ghost before = entries@;
            let key = self.entries[i].0.clone();
            let value = self.entries[i].1.clone();
            entries.push((key, value));
            assert forall|j: int| 0 <= j < i + 1 implies views(entries@)[j] == views(
                self.entries@,
            )[j] by {
                if j < i {
                    assert(views(before)[j] == views(self.entries@).take(i as int)[j]);
                }
            }
            assert(views(entries@) =~= views(self.entries@).take(i + 1));
            i += 1;
        }
        assert(views(entries@) =~= views(self.entries@));
        Headers { entries }
    }
}

impl Headers {
    /// The fields as pairs of name and value, in order.
    pub closed spec fn fields(&self) -> Seq<(Seq<char>, Seq<char>)> {
        views(self.entries@)
    }

    #[verifier::type_invariant]
    spec fn names_are_distinct(&self) -> bool {
        distinct_keys(self.fields())
    }

    /// No fields.
    pub fn new() -> (h: Headers)
        ensures
            h.fields() == Seq::<(Seq<char>, Seq<char>)>::empty(),
            h@ == Map::<Seq<char>, Seq<char>>::empty(),
    {
        let h = Headers { entries: Vec::new() };
        assert(h.fields() =~= Seq::<(Seq<char>, Seq<char>)>::empty());
        assert(keys(h.fields()) =~= Seq::<Seq<char>>::empty());
        assert(h@ =~= Map::<Seq<char>, Seq<char>>::empty());
        h
    }

    /// The number of fields. Their names are distinct.
    pub fn len(&self) -> (n: usize)
        ensures
            n == self@.len(),
            n == self.fields().len(),
            distinct_keys(self.fields()),
    {
        proof {
            use_type_invariant(self);
            lemma_field_count(self.fields());
        }
        self.entries.len()
    }

    /// The index of the field named `key`, or the number of fields where
    /// there is none.
    fn position(&self, key: &str) -> (at: usize)
        ensures
            at == index_of(keys(self.fields()), key@),
            at <= self.entries@.len(),
    {
        let mut i: usize = 0;
        while i < self.entries.len() && !same_text(self.entries[i].0.as_str(), key)
            invariant
                i <= self.entries@.len(),
                forall|j: int| 0 <= j < i ==> keys(self.fields())[j] != key@,
            decreases self.entries@.len() - i,
        {
            i += 1;
        }
        proof {
            lemma_index_of_is(keys(self.fields()), key@, i as int);
        }
        i
    }

    /// Whether a field is named `key`.
    pub fn contains_key(&self, key: &str) -> (found: bool)
        ensures
            found == self@.contains_key(key@),
    {
        let at = self.position(key);
        proof {
            lemma_index_of(keys(self.fields()), key@);
        }
        at < self.entries.len()
    }

    /// The value of the field named `key`.
    pub fn get(&self, key: &str) -> (value: Option<&String>)
        ensures
            match value {
                Some(v) => self@.contains_key(key@) && v@ == self@[key@],
                None => !self@.contains_key(key@),
            },
    {
        let at = self.position(key);
        proof {
            lemma_index_of(keys(self.fields()), key@);
        }
        if at < self.entries.len() {
            Some(&self.entries[at].1)
        } else {
            None
        }
    }

    /// Gives the field named `key` the value `value`. A field of that name
    /// keeps its place; a new name goes to the end.
    pub fn insert(&mut self, key: String, value: String)
        ensures
            final(self).fields() == with_field(old(self).fields(), key@, value@),
            final(self)@ == old(self)@.insert(key@, value@),
    {
        proof {
            use_type_invariant(&*self);
            lemma_with_field(self.fields(), key@, value@);
        }
        let at = self.position(key.as_str());
        let mut entries: Vec<(String, String)> = Vec::new();
        std::mem::swap(&mut self.entries, &mut entries);
        if at < entries.len() {
            entries.set(at, (key, value));
        } else {
            entries.push((key, value));
        }
        assert(views(entries@) =~= with_field(old(self).fields(), key@, value@));
        self.entries = entries;
    }

    /// Whether every field of `self` is a field of `other` with the same
    /// value.
    fn included_in(&self, other: &Headers) -> (all: bool)
        ensures
            all == self@.submap_of(other@),
    {
        proof {
            use_type_invariant(self);
        }
        let mut i: usize = 0;
        while i < self.entries.len()
            invariant
                i <= self.entries@.len(),
                distinct_keys(self.fields()),
                forall|j: int|
                    0 <= j < i ==> {
                        &&& other@.contains_key(#[trigger] self.fields()[j].0)
                        &&& other@[self.fields()[j].0] == self.fields()[j].1
                    },
            decreases self.entries@.len() - i,
        {
            let ghost key = self.fields()[i as int].0;
            proof {
                assert(keys(self.fields())[i as int] == key);
                lemma_index_of_is(keys(self.fields()), key, i as int);
            }
            match other.get(self.entries[i].0.as_str()) {
                Some(value) => {
                    if !same_text(value.as_str(), self.entries[i].1.as_str()) {
                        assert(self@.contains_key(key) && self@[key] != other@[key]);
                        return false;
                    }
                },
                None => {
                    assert(self@.contains_key(key) && !other@.contains_key(key));
                    return false;
                },
            }
            i += 1;
        }
        proof {
            assert forall|k: Seq<char>| #[trigger]
                self@.dom().contains(k) implies other@.dom().contains(k) && self@[k] == other@[k] by {
                lemma_index_of(keys(self.fields()), k);
                let j = index_of(keys(self.fields()), k) as int;
                assert(self.fields()[j].0 == k);
            }
        }
        true
    }

    /// The header lines of the fields, in their order: for each field its
    /// name, a colon, its value and a line end.
    pub fn wire_text(&self) -> (text: String)
        ensures
            text@ == header_block(self.fields()),
    {
        let mut text = String::new();
        let mut i: usize = 0;
        assert(self.fields().take(0) =~= Seq::<(Seq<char>, Seq<char>)>::empty());
        while i < self.entries.len()
            invariant
                i <= self.entries@.len(),
                text@ == header_block(self.fields().take(i as int)),
            decreases self.entries@.len() - i,
        {
            proof {
                let upto = self.fields().take(i + 1);
                assert(upto.drop_last() =~= self.fields().take(i as int));
                assert(upto.last() == self.fields()[i as int]);
            }
            text.append(self.entries[i].0.as_str());
            text.append(":");
            text.append(self.entries[i].1.as_str());
            text.append("\r\n");
            assert(text@ =~= header_block(self.fields().take(i as int)) + field_line(
                self.fields()[i as int],
            ));
            i += 1;
        }
        assert(self.fields().take(i as int) =~= self.fields());
        text
    }
}

impl PartialEq for Headers {
    /// Whether both hold the same fields, in whatever order.
    fn eq(&self, other: &Headers) -> (same: bool) {
        let same = self.included_in(other) && other.included_in(self);
        assert(same == (self@ =~= other@));
        same
    }
}

impl vstd::std_specs::cmp::PartialEqSpecImpl for Headers {
    open spec fn obeys_eq_spec() -> bool {
        true
    }

    open spec fn eq_spec(&self, other: &Headers) -> bool {
        self@ == other@
    }
}

} // verus!
