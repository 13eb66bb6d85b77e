use vstd::prelude::*;

use crate::text::str_eq;

verus! {

/// A floating-point number reduced to what comparisons need of it.
///
/// `Key` holds a finite or infinite number as an integer whose order is the
/// order of the numbers (both zeros share the key 0); `Nan` is the reading
/// that has no place in that order.
#[derive(Clone, Copy, Debug, PartialEq, Eq, Structural)]
pub enum NumKey {
    Nan,
    Key(i64),
}

/// One cell of a row, or one comparison value of a filter.
///
/// A number keeps the text it is rendered with and its ordering key; a
/// string keeps, besides its characters, the number it reads as when it
/// parses as one.
#[derive(Clone, Debug)]
pub enum Value {
    Null,
    Bool(bool),
    Number { repr: String, key: i64 },
    Text { text: String, reading: Option<NumKey> },
    /// An array or an object, held as its JSON text.
    Composite(String),
}

/// The mathematical model of a [`Value`].
pub enum ValueModel {
    Null,
    Bool(bool),
    Number(Seq<char>, i64),
    Text(Seq<char>, Option<NumKey>),
    Composite(Seq<char>),
}

impl View for Value {
    type V = ValueModel;

    open spec fn view(&self) -> ValueModel {
        match self {
            Value::Null => ValueModel::Null,
            Value::Bool(b) => ValueModel::Bool(*b),
            Value::Number { repr, key } => ValueModel::Number(repr@, *key),
            Value::Text { text, reading } => ValueModel::Text(text@, *reading),
            Value::Composite(j) => ValueModel::Composite(j@),
        }
    }
}

/// The number a value reads as: a number always, a string when it parses
/// as one, nothing else.
pub open spec fn reading(v: ValueModel) -> Option<NumKey> {
    match v {
        ValueModel::Number(_, k) => Some(NumKey::Key(k)),
        ValueModel::Text(_, r) => r,
        _ => None,
    }
}

impl Value {
    /// The number this value reads as (see [`reading`]).
    pub fn numeric(&self) -> (r: Option<NumKey>)
        ensures
            r == reading(self@),
    {
        match self {
            Value::Number { key, .. } => Some(NumKey::Key(*key)),
            Value::Text { reading, .. } => *reading,
            _ => None,
        }
    }

    pub fn is_null(&self) -> (r: bool)
        ensures
            r == (self@ is Null),
    {
        match self {
            Value::Null => true,
            _ => false,
        }
    }

    /// A copy of this value.
    pub fn duplicate(&self) -> (r: Value)
        ensures
            r@ == self@,
    {
        match self {
            Value::Null => Value::Null,
            Value::Bool(b) => Value::Bool(*b),
            Value::Number { repr, key } => Value::Number { repr: repr.clone(), key: *key },
            Value::Text { text, reading } => Value::Text { text: text.clone(), reading: *reading },
            Value::Composite(j) => Value::Composite(j.clone()),
        }
    }
}

/// The keys and models of a sequence of entries.
pub open spec fn pairs_of(v: Seq<(String, Value)>) -> Seq<(Seq<char>, ValueModel)> {
    v.map_values(|e: (String, Value)| (e.0@, e.1@))
}

/// The map that a sequence of entries describes, a later entry winning.
pub open spec fn pairs_map(p: Seq<(Seq<char>, ValueModel)>) -> Map<Seq<char>, ValueModel>
    decreases p.len(),
{
    if p.len() == 0 {
        Map::empty()
    } else {
        pairs_map(p.drop_last()).insert(p.last().0, p.last().1)
    }
}

/// No key occurs twice.
pub open spec fn keys_unique(p: Seq<(Seq<char>, ValueModel)>) -> bool {
    forall|i: int, j: int| 0 <= i < j < p.len() ==> p[i].0 != p[j].0
}

pub proof fn lemma_pairs_map_dom(p: Seq<(Seq<char>, ValueModel)>)
    ensures
        pairs_map(p).dom().finite(),
        forall|k: Seq<char>|
            pairs_map(p).dom().contains(k) <==> exists|i: int| 0 <= i < p.len() && p[i].0 == k,
    decreases p.len(),
{
    if p.len() > 0 {
        let q = p.drop_last();
        lemma_pairs_map_dom(q);
        assert forall|k: Seq<char>|
            pairs_map(p).dom().contains(k) <==> exists|i: int| 0 <= i < p.len() && p[i].0 == k by {
            if pairs_map(p).dom().contains(k) {
                if k == p.last().0 {
                    assert(p[p.len() - 1].0 == k);
                } else {
                    let i = choose|i: int| 0 <= i < q.len() && q[i].0 == k;
                    assert(p[i].0 == k);
                }
            }
            if exists|i: int| 0 <= i < p.len() && p[i].0 == k {
                let i = choose|i: int| 0 <= i < p.len() && p[i].0 == k;
                if i < p.len() - 1 {
                    assert(q[i].0 == k);
                }
            }
        }
    }
}

pub proof fn lemma_pairs_map_index(p: Seq<(Seq<char>, ValueModel)>, i: int)
    requires
        keys_unique(p),
        0 <= i < p.len(),
    ensures
        pairs_map(p).dom().contains(p[i].0),
        pairs_map(p)[p[i].0] == p[i].1,
    decreases p.len(),
{
    lemma_pairs_map_dom(p);
    if i < p.len() - 1 {
        let q = p.drop_last();
        assert(q[i] == p[i]);
        lemma_pairs_map_index(q, i);
    }
}

pub proof fn lemma_pairs_map_len(p: Seq<(Seq<char>, ValueModel)>)
    requires
        keys_unique(p),
    ensures
        pairs_map(p).dom().len() == p.len(),
    decreases p.len(),
{
    if p.len() > 0 {
        let q = p.drop_last();
        lemma_pairs_map_len(q);
        lemma_pairs_map_dom(q);
        if pairs_map(q).dom().contains(p.last().0) {
            let i = choose|i: int| 0 <= i < q.len() && q[i].0 == p.last().0;
            assert(p[i].0 == p[p.len() - 1].0);
        }
    }
}

proof fn lemma_pairs_map_update(p: Seq<(Seq<char>, ValueModel)>, i: int, v: ValueModel)
    requires
        keys_unique(p),
        0 <= i < p.len(),
    ensures
        keys_unique(p.update(i, (p[i].0, v))),
        pairs_map(p.update(i, (p[i].0, v))) == pairs_map(p).insert(p[i].0, v),
{
    let r = p.update(i, (p[i].0, v));
    let k = p[i].0;
    assert(keys_unique(r)) by {
        assert forall|a: int, b: int| 0 <= a < b < r.len() implies r[a].0 != r[b].0 by {
            assert(r[a].0 == p[a].0 && r[b].0 == p[b].0);
        }
    }
    lemma_pairs_map_dom(p);
    lemma_pairs_map_dom(r);
    assert forall|key: Seq<char>|
        #![trigger pairs_map(r).dom().contains(key)]
        pairs_map(r).dom().contains(key) <==> pairs_map(p).insert(k, v).dom().contains(key) by {
        if pairs_map(r).dom().contains(key) {
            let a = choose|a: int| 0 <= a < r.len() && r[a].0 == key;
            assert(p[a].0 == key);
        }
        if pairs_map(p).dom().contains(key) {
            let a = choose|a: int| 0 <= a < p.len() && p[a].0 == key;
            assert(r[a].0 == key);
        }
        if key == k {
            assert(r[i].0 == key);
        }
    }
    assert forall|key: Seq<char>| #[trigger] pairs_map(r).dom().contains(key) implies pairs_map(r)[key]
        == pairs_map(p).insert(k, v)[key] by {
        let a = choose|a: int| 0 <= a < r.len() && r[a].0 == key;
        lemma_pairs_map_index(r, a);
        if a != i {
            lemma_pairs_map_index(p, a);
        }
    }
    assert(pairs_map(r) =~= pairs_map(p).insert(k, v));
}

/// A row: named cells, each name at most once.
pub struct Row {
    entries: Vec<(String, Value)>,
}

impl View for Row {
    type V = Map<Seq<char>, ValueModel>;

    closed spec fn view(&self) -> Map<Seq<char>, ValueModel> {
        pairs_map(self.pairs())
    }
}

impl Row {
    /// The entries in the order they were first inserted.
    pub closed spec fn pairs(&self) -> Seq<(Seq<char>, ValueModel)> {
        pairs_of(self.entries@)
    }

    /// Well-formedness: no name occurs twice.
    pub closed spec fn wf(&self) -> bool {
        keys_unique(self.pairs())
    }

    pub proof fn lemma_view(&self)
        ensures
            self@ == pairs_map(self.pairs()),
    {
    }

    pub fn new() -> (r: Row)
        ensures
            r.wf(),
            r@ == Map::<Seq<char>, ValueModel>::empty(),
            r.pairs() == Seq::<(Seq<char>, ValueModel)>::empty(),
    {
        let r = Row { entries: Vec::new() };
        assert(r.pairs() =~= Seq::<(Seq<char>, ValueModel)>::empty());
        r
    }

    /// The entries themselves, in order.
    pub fn entries(&self) -> (r: &Vec<(String, Value)>)
        ensures
            pairs_of(r@) == self.pairs(),
    {
        &self.entries
    }

    fn position(&self, key: &str) -> (r: Option<usize>)
        requires
            self.wf(),
        ensures
            match r {
                Some(i) => i < self.pairs().len() && self.pairs()[i as int].0 == key@,
                None => !self@.dom().contains(key@),
            },
    {
        proof {
            lemma_pairs_map_dom(self.pairs());
        }
        let mut i: usize = 0;
        while i < self.entries.len()
            invariant
                i <= self.entries.len(),
                self.pairs().len() == self.entries.len(),
                forall|j: int| 0 <= j < i ==> self.pairs()[j].0 != key@,
            decreases self.entries.len() - i,
        {
            if str_eq(self.entries[i].0.as_str(), key) {
                return Some(i);
            }
            i = i + 1;
        }
        None
    }

    /// The cell named `key`, if the row has one.
    pub fn get(&self, key: &str) -> (r: Option<&Value>)
        requires
            self.wf(),
        ensures
            match r {
                Some(v) => self@.dom().contains(key@) && self@[key@] == v@,
                None => !self@.dom().contains(key@),
            },
    {
        match self.position(key) {
            Some(i) => {
                proof {
                    lemma_pairs_map_index(self.pairs(), i as int);
                }
                Some(&self.entries[i].1)
            },
            None => None,
        }
    }

    pub fn contains_key(&self, key: &str) -> (r: bool)
        requires
            self.wf(),
        ensures
            r == self@.dom().contains(key@),
    {
        match self.position(key) {
            Some(i) => {
                proof {
                    lemma_pairs_map_index(self.pairs(), i as int);
                }
                true
            },
            None => false,
        }
    }

    /// The number of cells.
    pub fn len(&self) -> (r: usize)
        requires
            self.wf(),
        ensures
            r == self@.dom().len(),
    {
        proof {
            lemma_pairs_map_len(self.pairs());
        }
        self.entries.len()
    }

    /// Sets the cell named `key` to `value`; a cell of that name that was
    /// there before keeps its place.
    pub fn insert(&mut self, key: String, value: Value)
        requires
            old(self).wf(),
        ensures
            final(self).wf(),
            final(self)@ == old(self)@.insert(key@, value@),
            old(self)@.dom().contains(key@) ==> exists|i: int|
                0 <= i < old(self).pairs().len() && old(self).pairs()[i].0 == key@
                    && final(self).pairs() == old(self).pairs().update(i, (key@, value@)),
            !old(self)@.dom().contains(key@) ==> final(self).pairs() == old(self).pairs().push(
                (key@, value@),
            ),
    {
        let ghost p = self.pairs();
        match self.position(key.as_str()) {
            Some(i) => {
                let ghost v = value@;
                proof {
                    lemma_pairs_map_update(p, i as int, v);
                    lemma_pairs_map_index(p, i as int);
                }
                self.entries.set(i, (key, value));
                assert(self.pairs() =~= p.update(i as int, (p[i as int].0, v)));
            },
            None => {
                let ghost e = (key@, value@);
                self.entries.push((key, value));
                assert(self.pairs() =~= p.push(e));
                assert(p.push(e).drop_last() =~= p);
                proof {
                    lemma_pairs_map_dom(p);
                    assert forall|a: int, b: int| 0 <= a < b < p.push(e).len() implies p.push(e)[a].0
                        != p.push(e)[b].0 by {
                        if b == p.len() {
                            assert(pairs_map(p).dom().contains(p[a].0));
                        }
                    }
                }
            },
        }
    }
}

} // verus!
