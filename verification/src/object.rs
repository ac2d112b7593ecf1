//! The object model: scalars, arrays, dictionaries, streams and references.

use crate::bytes::bytes_eq;
use vstd::prelude::*;
use vstd::slice::slice_to_vec;

verus! {

/// What an object is, as a mathematical value.
pub enum Value {
    Int(i64),
    /// A real number, as the digits, sign and point it was written with.
    Real(Seq<u8>),
    String(Seq<u8>),
    Name(Seq<u8>),
    Array(Seq<Value>),
    Dict(Map<Seq<u8>, Value>),
    /// A stream: its dictionary and its raw bytes.
    Stream(Map<Seq<u8>, Value>, Seq<u8>),
    /// An unresolved reference: object number, then generation number.
    RawReference(i64, i64),
}

/// An object of the document.
#[derive(Debug)]
pub enum Object<'a> {
    Int(i64),
    /// A real number, held as the digits, sign and point it was written with.
    Real(Vec<u8>),
    String(Vec<u8>),
    Name(Vec<u8>),
    Array(Vec<Object<'a>>),
    Dict(Dict<'a>),
    /// A stream: its dictionary and its raw, still encoded bytes.
    Stream(Dict<'a>, &'a [u8]),
    /// An unresolved reference: object number, then generation number.
    RawReference(i64, i64),
}

/// A dictionary: names mapped to objects. No name occurs twice.
#[derive(Debug)]
pub struct Dict<'a> {
    entries: Vec<(Vec<u8>, Object<'a>)>,
}

/// The map that a list of key-value pairs builds up, a later pair replacing
/// an earlier one with the same key.
pub open spec fn pairs_map(pairs: Seq<(Seq<u8>, Value)>) -> Map<Seq<u8>, Value>
    decreases pairs.len(),
{
    if pairs.len() == 0 {
        Map::empty()
    } else {
        pairs_map(pairs.drop_last()).insert(pairs.last().0, pairs.last().1)
    }
}

/// No key occurs twice in `pairs`.
pub open spec fn distinct_keys(pairs: Seq<(Seq<u8>, Value)>) -> bool {
    forall|i: int, j: int| 0 <= i < j < pairs.len() ==> pairs[i].0 != pairs[j].0
}

/// The map holds exactly the keys of the list.
pub proof fn lemma_pairs_map_keys(pairs: Seq<(Seq<u8>, Value)>, key: Seq<u8>)
    ensures
        pairs_map(pairs).contains_key(key) <==> exists|i: int|
            0 <= i < pairs.len() && #[trigger] pairs[i].0 == key,
        pairs_map(pairs).dom().finite(),
    decreases pairs.len(),
{
    if pairs.len() > 0 {
        let front = pairs.drop_last();
        lemma_pairs_map_keys(front, key);
        if pairs_map(pairs).contains_key(key) {
            if pairs.last().0 == key {
                assert(pairs[pairs.len() - 1].0 == key);
            } else {
                let i = choose|i: int| 0 <= i < front.len() && #[trigger] front[i].0 == key;
                assert(pairs[i].0 == key);
            }
        }
        if exists|i: int| 0 <= i < pairs.len() && #[trigger] pairs[i].0 == key {
            let i = choose|i: int| 0 <= i < pairs.len() && #[trigger] pairs[i].0 == key;
            if i < pairs.len() - 1 {
                assert(front[i].0 == key);
            }
        }
    }
}

/// Where no key occurs twice, each pair's key is mapped to that pair's value.
pub proof fn lemma_pairs_map_value(pairs: Seq<(Seq<u8>, Value)>, i: int)
    requires
        distinct_keys(pairs),
        0 <= i < pairs.len(),
    ensures
        pairs_map(pairs).contains_key(pairs[i].0),
        pairs_map(pairs)[pairs[i].0] == pairs[i].1,
    decreases pairs.len(),
{
    if i < pairs.len() - 1 {
        let front = pairs.drop_last();
        assert(forall|k: int| 0 <= k < front.len() ==> front[k] == pairs[k]);
        lemma_pairs_map_value(front, i);
        assert(front[i] == pairs[i]);
    }
}

/// Where no key occurs twice, the map has as many keys as the list has pairs.
pub proof fn lemma_pairs_map_len(pairs: Seq<(Seq<u8>, Value)>)
    requires
        distinct_keys(pairs),
    ensures
        pairs_map(pairs).dom().finite(),
        pairs_map(pairs).dom().len() == pairs.len(),
    decreases pairs.len(),
{
    if pairs.len() > 0 {
        let front = pairs.drop_last();
        assert(forall|k: int| 0 <= k < front.len() ==> front[k] == pairs[k]);
        lemma_pairs_map_len(front);
        lemma_pairs_map_keys(front, pairs.last().0);
        if pairs_map(front).contains_key(pairs.last().0) {
            let i = choose|i: int| 0 <= i < front.len() && #[trigger] front[i].0 == pairs.last().0;
            assert(pairs[i].0 == pairs[pairs.len() - 1].0);
        }
    }
}

/// Replacing the value of a key that the list holds is an insertion into the map.
proof fn lemma_pairs_map_update(pairs: Seq<(Seq<u8>, Value)>, i: int, value: Value)
    requires
        distinct_keys(pairs),
        0 <= i < pairs.len(),
    ensures
        distinct_keys(pairs.update(i, (pairs[i].0, value))),
        pairs_map(pairs.update(i, (pairs[i].0, value))) == pairs_map(pairs).insert(
            pairs[i].0,
            value,
        ),
{
    let key = pairs[i].0;
    let after = pairs.update(i, (key, value));
    let left = pairs_map(after);
    let right = pairs_map(pairs).insert(key, value);
    assert forall|k: Seq<u8>| left.contains_key(k) <==> right.contains_key(k) by {
        lemma_pairs_map_keys(after, k);
        lemma_pairs_map_keys(pairs, k);
        if left.contains_key(k) {
            let j = choose|j: int| 0 <= j < after.len() && #[trigger] after[j].0 == k;
            assert(pairs[j].0 == k);
        }
        if pairs_map(pairs).contains_key(k) {
            let j = choose|j: int| 0 <= j < pairs.len() && #[trigger] pairs[j].0 == k;
            assert(after[j].0 == k);
        }
        if k == key {
            assert(after[i].0 == k);
        }
    }
    assert forall|k: Seq<u8>| left.contains_key(k) implies left[k] == right[k] by {
        lemma_pairs_map_keys(after, k);
        let j = choose|j: int| 0 <= j < after.len() && #[trigger] after[j].0 == k;
        lemma_pairs_map_value(after, j);
        if j != i {
            lemma_pairs_map_value(pairs, j);
        }
    }
    assert(left =~= right);
}

impl<'a> Dict<'a> {
    /// The entries as mathematical pairs, in the order in which they are held.
    pub closed spec fn pairs(&self) -> Seq<(Seq<u8>, Value)>
        decreases self, 0nat,
    {
        Seq::new(
            self.entries.len() as nat,
            |i: int|
                if 0 <= i < self.entries.len() {
                    (self.entries[i].0@, self.entries[i].1.view())
                } else {
                    (Seq::empty(), Value::Int(0))
                },
        )
    }

    #[verifier::type_invariant]
    spec fn no_key_twice(&self) -> bool {
        forall|i: int, j: int|
            0 <= i < j < self.entries.len() ==> self.entries[i].0@ != self.entries[j].0@
    }

    /// The empty dictionary.
    pub fn new() -> (dict: Dict<'a>)
        ensures
            dict@ == Map::<Seq<u8>, Value>::empty(),
    {
        let dict = Dict { entries: Vec::new() };
        assert(dict.pairs() =~= Seq::empty());
        dict
    }

    /// The number of entries.
    pub fn len(&self) -> (n: usize)
        ensures
            self@.dom().finite(),
            n == self@.dom().len(),
    {
        proof {
            use_type_invariant(self);
            self.lemma_pairs_distinct();
            lemma_pairs_map_len(self.pairs());
        }
        self.entries.len()
    }

    /// Whether the dictionary has no entry.
    pub fn is_empty(&self) -> (r: bool)
        ensures
            r == (self@ == Map::<Seq<u8>, Value>::empty()),
    {
        proof {
            use_type_invariant(self);
            self.lemma_pairs_distinct();
            lemma_pairs_map_len(self.pairs());
            if self.entries.len() == 0 {
                assert(self@ =~= Map::empty());
            }
        }
        self.entries.len() == 0
    }

    /// No key occurs twice among the pairs of a dictionary.
    proof fn lemma_pairs_distinct(&self)
        requires
            self.no_key_twice(),
        ensures
            distinct_keys(self.pairs()),
            self.pairs().len() == self.entries.len(),
            forall|i: int|
                0 <= i < self.entries.len() ==> #[trigger] self.pairs()[i] == (
                    self.entries[i].0@,
                    self.entries[i].1@,
                ),
    {
    }

    /// The place of `key` among `entries`.
    fn position(entries: &Vec<(Vec<u8>, Object<'a>)>, key: &[u8]) -> (r: Option<usize>)
        ensures
            match r {
                Some(i) => i < entries.len() && entries[i as int].0@ == key@,
                None => forall|j: int| 0 <= j < entries.len() ==> entries[j].0@ != key@,
            },
    {
        let mut i: usize = 0;
        while i < entries.len()
            invariant
                i <= entries.len(),
                forall|j: int| 0 <= j < i ==> entries[j].0@ != key@,
            decreases entries.len() - i,
        {
            if bytes_eq(entries[i].0.as_slice(), key) {
                return Some(i);
            }
            i += 1;
        }
        None
    }

    /// The object that `key` is mapped to.
    pub fn get(&self, key: &[u8]) -> (r: Option<&Object<'a>>)
        ensures
            match r {
                Some(object) => self@.contains_key(key@) && object@ == self@[key@],
                None => !self@.contains_key(key@),
            },
    {
        proof {
            use_type_invariant(self);
            self.lemma_pairs_distinct();
            lemma_pairs_map_keys(self.pairs(), key@);
        }
        match Self::position(&self.entries, key) {
            Some(i) => {
                proof {
                    assert(self.pairs()[i as int].0 == key@);
                    lemma_pairs_map_value(self.pairs(), i as int);
                }
                Some(&self.entries[i].1)
            },
            None => {
                proof {
                    if self@.contains_key(key@) {
                        let j = choose|j: int|
                            0 <= j < self.pairs().len() && #[trigger] self.pairs()[j].0 == key@;
                        assert(self.entries[j].0@ == key@);
                    }
                }
                None
            },
        }
    }

    /// Maps `key` to `value`, in place of what it was mapped to before.
    pub fn insert(&mut self, key: Vec<u8>, value: Object<'a>)
        ensures
            final(self)@ == old(self)@.insert(key@, value@),
    {
        proof {
            use_type_invariant(&*self);
            self.lemma_pairs_distinct();
        }
        let ghost before = self.pairs();
        let mut entries: Vec<(Vec<u8>, Object<'a>)> = Vec::new();
        std::mem::swap(&mut entries, &mut self.entries);
        match Self::position(&entries, key.as_slice()) {
            Some(i) => {
                entries.set(i, (key, value));
                self.entries = entries;
                proof {
                    self.lemma_pairs_distinct();
                    assert(self.pairs() =~= before.update(i as int, (key@, value@)));
                    lemma_pairs_map_update(before, i as int, value@);
                }
            },
            None => {
                entries.push((key, value));
                self.entries = entries;
                proof {
                    self.lemma_pairs_distinct();
                    assert(self.pairs() =~= before.push((key@, value@)));
                    assert(self.pairs().drop_last() =~= before);
                }
            },
        }
    }

    /// The `index`-th entry. The entries are numbered from 0 on, each key is
    /// that of one entry only, and the entries are what the dictionary holds.
    pub fn entry(&self, index: usize) -> (r: Option<(&[u8], &Object<'a>)>)
        ensures
            distinct_keys(self.pairs()),
            self@ == pairs_map(self.pairs()),
            self@.dom().finite(),
            self@.dom().len() == self.pairs().len(),
            match r {
                Some((key, object)) => {
                    &&& index < self.pairs().len()
                    &&& self.pairs()[index as int] == (key@, object@)
                    &&& self@.contains_key(key@)
                    &&& self@[key@] == object@
                },
                None => index >= self.pairs().len(),
            },
    {
        proof {
            use_type_invariant(self);
            self.lemma_pairs_distinct();
            lemma_pairs_map_len(self.pairs());
        }
        if index < self.entries.len() {
            proof {
                lemma_pairs_map_value(self.pairs(), index as int);
            }
            Some((self.entries[index].0.as_slice(), &self.entries[index].1))
        } else {
            None
        }
    }
}

impl<'a> Dict<'a> {
    /// A copy of this dictionary that shares nothing with it but the data.
    #[verifier::loop_isolation(false)]
    pub fn duplicate(&self) -> (copy: Dict<'a>)
        ensures
            copy@ == self@,
            copy.pairs() == self.pairs(),
        decreases self,
    {
        proof {
            use_type_invariant(self);
        }
        let mut entries: Vec<(Vec<u8>, Object<'a>)> = Vec::new();
        let mut i: usize = 0;
        while i < self.entries.len()
            invariant
                i <= self.entries.len(),
                entries.len() == i,
                forall|j: int|
                    0 <= j < i ==> entries[j].0@ == self.entries[j].0@ && entries[j].1@
                        == self.entries[j].1@,
            decreases self.entries.len() - i,
        {
            let key = slice_to_vec(self.entries[i].0.as_slice());
            let value = self.entries[i].1.duplicate();
            entries.push((key, value));
            i += 1;
        }
        let copy = Dict { entries };
        assert(copy.pairs() =~= self.pairs());
        copy
    }
}

impl<'a> Object<'a> {
    /// A copy of this object that shares nothing with it but the data.
    #[verifier::loop_isolation(false)]
    pub fn duplicate(&self) -> (copy: Object<'a>)
        ensures
            copy@ == self@,
        decreases self,
    {
        match self {
            Object::Int(i) => Object::Int(*i),
            Object::Real(text) => Object::Real(slice_to_vec(text.as_slice())),
            Object::String(bytes) => Object::String(slice_to_vec(bytes.as_slice())),
            Object::Name(name) => Object::Name(slice_to_vec(name.as_slice())),
            Object::Array(items) => {
                let mut copies: Vec<Object<'a>> = Vec::new();
                let mut i: usize = 0;
                while i < items.len()
                    invariant
                        i <= items.len(),
                        copies.len() == i,
                        forall|j: int| 0 <= j < i ==> copies[j]@ == items[j]@,
                    decreases items.len() - i,
                {
                    copies.push(items[i].duplicate());
                    i += 1;
                }
                proof {
                    lemma_item_values(items@);
                    lemma_item_values(copies@);
                    assert(item_values(copies@) =~= item_values(items@));
                }
                Object::Array(copies)
            },
            Object::Dict(dict) => Object::Dict(dict.duplicate()),
            Object::Stream(dict, data) => Object::Stream(dict.duplicate(), *data),
            Object::RawReference(number, generation) => Object::RawReference(
                *number,
                *generation,
            ),
        }
    }
}

impl<'a> Clone for Dict<'a> {
    fn clone(&self) -> (copy: Self)
        ensures
            copy@ == self@,
    {
        self.duplicate()
    }
}

impl<'a> Clone for Object<'a> {
    fn clone(&self) -> (copy: Self)
        ensures
            copy@ == self@,
    {
        self.duplicate()
    }
}

/// The values of a row of objects.
pub open spec fn item_values<'a>(items: Seq<Object<'a>>) -> Seq<Value>
    decreases items, 0nat,
{
    if items.len() == 0 {
        Seq::empty()
    } else {
        item_values(items.drop_last()).push(items.last().view())
    }
}

/// The values of a row of objects are the values of its objects, each in its place.
pub proof fn lemma_item_values<'a>(items: Seq<Object<'a>>)
    ensures
        item_values(items).len() == items.len(),
        forall|i: int| 0 <= i < items.len() ==> #[trigger] item_values(items)[i] == items[i]@,
    decreases items.len(),
{
    if items.len() > 0 {
        lemma_item_values(items.drop_last());
        assert(item_values(items) == item_values(items.drop_last()).push(items.last().view()));
    } else {
        assert(item_values(items) == Seq::<Value>::empty());
    }
}

impl<'a> View for Dict<'a> {
    type V = Map<Seq<u8>, Value>;

    closed spec fn view(&self) -> Map<Seq<u8>, Value>
        decreases self, 1nat,
    {
        pairs_map(self.pairs())
    }
}

impl<'a> View for Object<'a> {
    type V = Value;

    open spec fn view(&self) -> Value
        decreases self, 0nat,
    {
        match self {
            Object::Int(i) => Value::Int(*i),
            Object::Real(text) => Value::Real(text@),
            Object::String(bytes) => Value::String(bytes@),
            Object::Name(name) => Value::Name(name@),
            Object::Array(items) => Value::Array(item_values(items@)),
            Object::Dict(dict) => Value::Dict(dict.view()),
            Object::Stream(dict, data) => Value::Stream(dict.view(), data@),
            Object::RawReference(number, generation) => Value::RawReference(*number, *generation),
        }
    }
}

} // verus!
