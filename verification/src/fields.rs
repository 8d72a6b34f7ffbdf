//! The header fields of a message, by name.

use vstd::prelude::*;

verus! {

/// One occurrence of a header field: its name and its value.
pub type Occurrence = (Seq<char>, Seq<char>);

/// The values of the occurrences that bear `name`, in the order in which
/// they occur.
pub open spec fn values_of(occurrences: Seq<Occurrence>, name: Seq<char>) -> Seq<Seq<char>>
    decreases occurrences.len(),
{
    if occurrences.len() == 0 {
        Seq::empty()
    } else if occurrences.last().0 == name {
        values_of(occurrences.drop_last(), name).push(occurrences.last().1)
    } else {
        values_of(occurrences.drop_last(), name)
    }
}

/// Whether a name occurs.
pub open spec fn occurs(occurrences: Seq<Occurrence>, name: Seq<char>) -> bool {
    exists|i: int| 0 <= i < occurrences.len() && (#[trigger] occurrences[i]).0 == name
}

/// The field map of a sequence of occurrences: each name that occurs, with
/// the values of its occurrences in their order.
pub open spec fn field_map(occurrences: Seq<Occurrence>) -> Map<Seq<char>, Seq<Seq<char>>> {
    Map::new(
        |name: Seq<char>| occurs(occurrences, name),
        |name: Seq<char>| values_of(occurrences, name),
    )
}

/// A name occurs exactly where it has a value.
pub proof fn lemma_values_of_occurs(occurrences: Seq<Occurrence>, name: Seq<char>)
    ensures
        occurs(occurrences, name) <==> values_of(occurrences, name).len() > 0,
    decreases occurrences.len(),
{
    if occurrences.len() > 0 {
        let earlier = occurrences.drop_last();
        lemma_values_of_occurs(earlier, name);
        if occurs(occurrences, name) && occurrences.last().0 != name {
            let i = choose|i: int| 0 <= i < occurrences.len() && (#[trigger] occurrences[i]).0 == name;
            assert(earlier[i].0 == name);
        }
    }
}

/// The field map after one more occurrence: the value joins the values of
/// its name, after them; every other name keeps its values.
pub proof fn lemma_field_map_push(occurrences: Seq<Occurrence>, name: Seq<char>, value: Seq<char>)
    ensures
        field_map(occurrences.push((name, value))) == field_map(occurrences).insert(
            name,
            values_of(occurrences, name).push(value),
        ),
{
    let longer = occurrences.push((name, value));
    assert(longer.drop_last() == occurrences);
    assert forall|n: Seq<char>| occurs(longer, n) <==> (n == name || occurs(occurrences, n)) by {
        if n == name {
            assert(longer[longer.len() - 1].0 == n);
        }
    }
}

/// The values of a name stand in the order of its occurrences: they are
/// the occurrences of that name, picked out in order, each reduced to its
/// value.
pub proof fn lemma_values_in_order_of_occurrence(occurrences: Seq<Occurrence>, name: Seq<char>)
    ensures
        values_of(occurrences, name) == occurrences.filter(|o: Occurrence| o.0 == name).map_values(
            |o: Occurrence| o.1,
        ),
        occurs(occurrences, name) ==> field_map(occurrences)[name] == values_of(occurrences, name),
    decreases occurrences.len(),
{
    reveal(Seq::filter);
    if occurrences.len() > 0 {
        let earlier = occurrences.drop_last();
        lemma_values_in_order_of_occurrence(earlier, name);
    }
}

/// The values of a name as texts.
pub open spec fn texts(values: Seq<String>) -> Seq<Seq<char>> {
    Seq::new(values.len(), |i: int| values[i]@)
}

/// The values that a message gives under one field name.
pub struct FieldEntry {
    name: String,
    values: Vec<String>,
}

/// The header fields of a message: for each name, the values of its
/// occurrences in the order of the message. No name stands twice, and each
/// name has a value.
pub struct HeaderFields {
    entries: Vec<FieldEntry>,
}

impl View for HeaderFields {
    type V = Map<Seq<char>, Seq<Seq<char>>>;

    closed spec fn view(&self) -> Map<Seq<char>, Seq<Seq<char>>> {
        Map::new(
            |name: Seq<char>| self.index_of(name) is Some,
            |name: Seq<char>| texts(self.entries@[self.index_of(name)->0].values@),
        )
    }
}

impl HeaderFields {
    /// Where the entry of a name stands, if the name has one.
    closed spec fn index_of(&self, name: Seq<char>) -> Option<int> {
        if exists|i: int| 0 <= i < self.entries@.len() && (#[trigger] self.entries@[i]).name@ == name {
            Some(
                choose|i: int|
                    0 <= i < self.entries@.len() && (#[trigger] self.entries@[i]).name@ == name,
            )
        } else {
            None
        }
    }

    #[verifier::type_invariant]
    spec fn well_formed(self) -> bool {
        &&& forall|i: int, j: int|
            0 <= i < j < self.entries@.len() ==> (#[trigger] self.entries@[i]).name@ != (
            #[trigger] self.entries@[j]).name@
        &&& forall|i: int|
            0 <= i < self.entries@.len() ==> (#[trigger] self.entries@[i]).values@.len() > 0
    }

    /// No fields.
    pub fn new() -> (fields: HeaderFields)
        ensures
            fields@ == Map::<Seq<char>, Seq<Seq<char>>>::empty(),
    {
        let fields = HeaderFields { entries: Vec::new() };
        fields
    }

    /// The position of the entry that bears `name`.
    fn position(&self, name: &str) -> (r: Option<usize>)
        ensures
            match r {
                Some(i) => i < self.entries@.len() && self.entries@[i as int].name@ == name@
                    && self.index_of(name@) == Some(i as int),
                None => self.index_of(name@) is None,
            },
    {
        proof {
            use_type_invariant(self);
        }
        let mut i: usize = 0;
        while i < self.entries.len()
            invariant
                i <= self.entries@.len(),
                forall|j: int| 0 <= j < i ==> (#[trigger] self.entries@[j]).name@ != name@,
            decreases self.entries@.len() - i,
        {
            if str_equal(self.entries[i].name.as_str(), name) {
                proof {
                    use_type_invariant(self);
                }
                return Some(i);
            }
            i = i + 1;
        }
        None
    }

    /// The fields with one more occurrence of a field recorded.
    pub fn insert(self, name: String, value: String) -> (r: HeaderFields)
        ensures
            r@ == self@.insert(
                name@,
                if self@.contains_key(name@) {
                    self@[name@].push(value@)
                } else {
                    seq![value@]
                },
            ),
    {
        proof {
            use_type_invariant(&self);
        }
        let ghost name_text = name@;
        let ghost value_text = value@;
        let found = self.position(name.as_str());
        let mut entries = self.entries;
        match found {
            Some(i) => {
                let mut entry = entries.remove(i);
                entry.values.push(value);
                entries.insert(i, entry);
                let r = HeaderFields { entries };
                proof {
                    assert forall|j: int| 0 <= j < r.entries@.len() implies (
                    #[trigger] r.entries@[j]).name@ == self.entries@[j].name@ by {}
                    assert forall|n: Seq<char>| r.index_of(n) == self.index_of(n) by {
                        if self.index_of(n) is Some {
                            let k = self.index_of(n)->0;
                            assert(r.entries@[k].name@ == n);
                        }
                    }
                    assert(texts(r.entries@[i as int].values@) == texts(
                        self.entries@[i as int].values@,
                    ).push(value_text));
                    assert forall|j: int| 0 <= j < r.entries@.len() && j != i implies (
                    #[trigger] r.entries@[j]).values@ == self.entries@[j].values@ by {}
                }
                r
            },
            None => {
                let mut values: Vec<String> = Vec::new();
                values.push(value);
                entries.push(FieldEntry { name, values });
                let r = HeaderFields { entries };
                proof {
                    let last = r.entries@.len() - 1;
                    assert(r.entries@[last].name@ == name_text);
                    assert forall|n: Seq<char>|
                        r.index_of(n) is Some <==> (n == name_text || self.index_of(n) is Some) by {
                        if self.index_of(n) is Some {
                            let k = self.index_of(n)->0;
                            assert(r.entries@[k].name@ == n);
                        }
                    }
                    assert forall|n: Seq<char>| n != name_text && r.index_of(n) is Some implies
                        r.entries@[r.index_of(n)->0].values@ == self.entries@[self.index_of(
                        n,
                    )->0].values@ by {}
                    assert(texts(r.entries@[last].values@) == seq![value_text]);
                }
                r
            },
        }
    }

    /// The values of the field that bears `name`, in the order of their
    /// occurrences.
    pub fn get(&self, name: &str) -> (r: Option<&Vec<String>>)
        ensures
            r is Some <==> self@.contains_key(name@),
            r matches Some(values) ==> texts(values@) == self@[name@] && values@.len() > 0,
    {
        proof {
            use_type_invariant(self);
        }
        match self.position(name) {
            Some(i) => Some(&self.entries[i].values),
            None => None,
        }
    }

    /// The names of the fields, each once, in the order of their first
    /// occurrence.
    pub fn field_names(&self) -> (r: Vec<&str>)
        ensures
            forall|name: Seq<char>|
                self@.contains_key(name) <==> exists|i: int|
                    0 <= i < r@.len() && (#[trigger] r@[i])@ == name,
            forall|i: int, j: int| 0 <= i < j < r@.len() ==> r@[i]@ != r@[j]@,
    {
        let mut out: Vec<&str> = Vec::new();
        let mut i: usize = 0;
        while i < self.entries.len()
            invariant
                i <= self.entries@.len(),
                out@.len() == i,
                forall|j: int| 0 <= j < i ==> (#[trigger] out@[j])@ == self.entries@[j].name@,
            decreases self.entries@.len() - i,
        {
            out.push(self.entries[i].name.as_str());
            i = i + 1;
        }
        proof {
            use_type_invariant(self);
            assert forall|name: Seq<char>|
                self@.contains_key(name) <==> exists|i: int|
                    0 <= i < out@.len() && (#[trigger] out@[i])@ == name by {
                if self@.contains_key(name) {
                    let k = self.index_of(name)->0;
                    assert(out@[k]@ == name);
                }
            }
            assert forall|i: int, j: int| 0 <= i < j < out@.len() implies out@[i]@ != out@[j]@ by {}
        }
        out
    }
}

/// Tests whether two texts are the same.
pub fn str_equal(a: &str, b: &str) -> (r: bool)
    ensures
        r == (a@ == b@),
{
    let x = a.as_bytes();
    let y = b.as_bytes();
    let r = crate::scan::bytes_equal(x, y);
    proof {
        vstd::utf8::encode_utf8_decode_utf8(a@);
        vstd::utf8::encode_utf8_decode_utf8(b@);
    }
    r
}

} // verus!
