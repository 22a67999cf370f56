//! A small table keyed by text.
use crate::text;
use vstd::prelude::*;

verus! {

/// Values by their key. No key occurs twice.
#[derive(Debug)]
pub struct Table<V> {
    entries: Vec<(String, V)>,
}

/// What a list of entries maps each key to.
spec fn entries_map<V: View>(entries: Seq<(String, V)>) -> Map<Seq<char>, V::V>
    decreases entries.len(),
{
    if entries.len() == 0 {
        Map::empty()
    } else {
        entries_map(entries.drop_last()).insert(entries.last().0@, entries.last().1@)
    }
}

spec fn distinct<V>(entries: Seq<(String, V)>) -> bool {
    forall|i: int, j: int|
        0 <= i < j < entries.len() ==> (#[trigger] entries[i]).0@ != (#[trigger] entries[j]).0@
}

/// With distinct keys, the map holds exactly the entries.
proof fn lemma_entries_map<V: View>(entries: Seq<(String, V)>)
    requires
        distinct(entries),
    ensures
        forall|i: int|
            0 <= i < entries.len() ==> {
                &&& entries_map(entries).contains_key((#[trigger] entries[i]).0@)
                &&& entries_map(entries)[entries[i].0@] == entries[i].1@
            },
        forall|k: Seq<char>| #[trigger]
            entries_map(entries).contains_key(k) ==> exists|i: int|
                0 <= i < entries.len() && (#[trigger] entries[i]).0@ == k,
    decreases entries.len(),
{
    if entries.len() > 0 {
        let init = entries.drop_last();
        assert forall|i: int, j: int| 0 <= i < j < init.len() implies (#[trigger] init[i]).0@ != (
        #[trigger] init[j]).0@ by {
            assert(entries[i].0@ != entries[j].0@);
        }
        lemma_entries_map(init);
        let last = entries.len() - 1;
        assert forall|i: int| 0 <= i < entries.len() implies {
            &&& entries_map(entries).contains_key((#[trigger] entries[i]).0@)
            &&& entries_map(entries)[entries[i].0@] == entries[i].1@
        } by {
            if i < last {
                assert(entries[i].0@ != entries[last].0@);
                assert(init[i] == entries[i]);
            }
        }
        assert forall|k: Seq<char>| #[trigger] entries_map(entries).contains_key(k) implies exists|
            i: int,
        |
            0 <= i < entries.len() && (#[trigger] entries[i]).0@ == k by {
            if k == entries[last].0@ {
            } else {
                assert(entries_map(init).contains_key(k));
                let i = choose|i: int| 0 <= i < init.len() && (#[trigger] init[i]).0@ == k;
                assert(entries[i] == init[i]);
            }
        }
    }
}

impl<V: View> View for Table<V> {
    type V = Map<Seq<char>, V::V>;

    closed spec fn view(&self) -> Map<Seq<char>, V::V> {
        entries_map(self.entries@)
    }
}

impl<V> Table<V> {
    #[verifier::type_invariant]
    spec fn keys_are_distinct(self) -> bool {
        distinct(self.entries@)
    }

    /// The keys, each once.
    pub closed spec fn keys(self) -> Seq<Seq<char>> {
        self.entries@.map_values(|e: (String, V)| e.0@)
    }
}

impl<V: View> Table<V> {
    /// The empty table.
    pub fn new() -> (r: Self)
        ensures
            r@ == Map::<Seq<char>, V::V>::empty(),
            r.keys() == Seq::<Seq<char>>::empty(),
    {
        Table { entries: Vec::new() }
    }

    /// How many keys the table has.
    pub fn len(&self) -> (n: usize)
        ensures
            n == self@.dom().len(),
            n == self.keys().len(),
            n == 0 <==> self@ == Map::<Seq<char>, V::V>::empty(),
            self.keys().no_duplicates(),
            forall|k: Seq<char>| #[trigger] self@.contains_key(k) <==> self.keys().contains(k),
    {
        proof {
            use_type_invariant(self);
            lemma_entries_map(self.entries@);
            if self.entries@.len() > 0 {
                assert(self@.contains_key(self.entries@[0].0@));
            }
            assert forall|k: Seq<char>| #[trigger] self@.contains_key(k) implies self.keys().contains(
                k,
            ) by {
                let i = choose|i: int|
                    0 <= i < self.entries@.len() && (#[trigger] self.entries@[i]).0@ == k;
                assert(self.keys()[i] == k);
            }
            assert forall|i: int, j: int|
                0 <= i < j < self.keys().len() implies self.keys()[i] != self.keys()[j] by {
                assert(self.entries@[i].0@ != self.entries@[j].0@);
            }
            self.keys().unique_seq_to_set();
            assert(self.keys().to_set() =~= self@.dom());
        }
        self.entries.len()
    }

    fn index_of(&self, key: &str) -> (r: Option<usize>)
        ensures
            match r {
                Some(i) => i < self.entries@.len() && self.entries@[i as int].0@ == key@,
                None => !self@.contains_key(key@),
            },
    {
        proof {
            use_type_invariant(self);
            lemma_entries_map(self.entries@);
        }
        let mut i: usize = 0;
        while i < self.entries.len()
            invariant
                i <= self.entries@.len(),
                forall|j: int| 0 <= j < i ==> (#[trigger] self.entries@[j]).0@ != key@,
            decreases self.entries@.len() - i,
        {
            if text::same(self.entries[i].0.as_str(), key) {
                return Some(i);
            }
            i += 1;
        }
        None
    }

    /// The value at `key`.
    pub fn get(&self, key: &str) -> (r: Option<&V>)
        ensures
            match r {
                Some(v) => self@.contains_key(key@) && v@ == self@[key@],
                None => !self@.contains_key(key@),
            },
    {
        proof {
            use_type_invariant(self);
            lemma_entries_map(self.entries@);
        }
        match self.index_of(key) {
            Some(i) => Some(&self.entries[i].1),
            None => None,
        }
    }

    /// Whether the table has a value at `key`.
    pub fn contains_key(&self, key: &str) -> (r: bool)
        ensures
            r == self@.contains_key(key@),
    {
        self.get(key).is_some()
    }

    /// The `i`-th key and its value.
    pub fn entry(&self, i: usize) -> (r: (&str, &V))
        requires
            i < self.keys().len(),
        ensures
            r.0@ == self.keys()[i as int],
            self@.contains_key(r.0@),
            r.1@ == self@[r.0@],
    {
        proof {
            use_type_invariant(self);
            lemma_entries_map(self.entries@);
        }
        (self.entries[i].0.as_str(), &self.entries[i].1)
    }

    /// Puts `value` at `key`, in place of what was there.
    pub fn insert(&mut self, key: String, value: V)
        ensures
            final(self)@ == old(self)@.insert(key@, value@),
    {
        let found = self.index_of(key.as_str());
        proof {
            use_type_invariant(&*self);
        }
        let ghost before = self.entries@;
        let mut entries: Vec<(String, V)> = Vec::new();
        std::mem::swap(&mut entries, &mut self.entries);
        proof {
            lemma_entries_map(before);
        }
        let ghost k = key@;
        let ghost v = value@;
        match found {
            Some(i) => {
                entries.set(i, (key, value));
                proof {
                    assert forall|a: int, b: int| 0 <= a < b < entries@.len() implies (
                    #[trigger] entries@[a]).0@ != (#[trigger] entries@[b]).0@ by {
                        assert(before[a].0@ != before[b].0@);
                    }
                    lemma_entries_map(entries@);
                    let m = entries_map(entries@);
                    assert forall|q: Seq<char>| #[trigger]
                        m.contains_key(q) <==> entries_map(before).insert(k, v).contains_key(q) by {
                        if m.contains_key(q) {
                            let j = choose|j: int|
                                0 <= j < entries@.len() && (#[trigger] entries@[j]).0@ == q;
                            assert(before[j].0@ == q);
                        }
                        if entries_map(before).insert(k, v).contains_key(q) && q != k {
                            let j = choose|j: int|
                                0 <= j < before.len() && (#[trigger] before[j]).0@ == q;
                            assert(entries@[j].0@ == q);
                        }
                        if q == k {
                            assert(entries@[i as int].0@ == q);
                        }
                    }
                    assert forall|q: Seq<char>| #[trigger] m.contains_key(q) implies m[q]
                        == entries_map(before).insert(k, v)[q] by {
                        let j = choose|j: int|
                            0 <= j < entries@.len() && (#[trigger] entries@[j]).0@ == q;
                        if j != i {
                            assert(before[j] == entries@[j]);
                            assert(before[i as int].0@ != before[j].0@) by {
                                if i < j {
                                    assert(before[i as int].0@ != before[j].0@);
                                } else {
                                    assert(before[j].0@ != before[i as int].0@);
                                }
                            }
                        }
                    }
                    assert(m =~= entries_map(before).insert(k, v));
                }
            },
            None => {
                entries.push((key, value));
                proof {
                    assert(entries@.drop_last() == before);
                    assert forall|a: int, b: int| 0 <= a < b < entries@.len() implies (
                    #[trigger] entries@[a]).0@ != (#[trigger] entries@[b]).0@ by {
                        assert(entries_map(before).contains_key(before[a].0@));
                        if b < before.len() {
                            assert(before[a].0@ != before[b].0@);
                        }
                    }
                }
            },
        }
        self.entries = entries;
    }

    /// Takes over the values of `other` at keys that have none yet.
    pub fn fill_from(&mut self, other: Table<V>)
        ensures
            final(self)@ == other@.union_prefer_right(old(self)@),
    {
        let mut rest = other.entries;
        let ghost goal = other@.union_prefer_right(self@);
        loop
            invariant
                goal == entries_map(rest@).union_prefer_right(self@),
            ensures
                self@ == goal,
            decreases rest@.len(),
        {
            let ghost whole = rest@;
            match rest.pop() {
                Some((key, value)) => {
                    assert(whole.drop_last() == rest@);
                    let ghost have = self@;
                    if !self.contains_key(key.as_str()) {
                        self.insert(key, value);
                    }
                    assert(entries_map(whole).union_prefer_right(have) =~= entries_map(
                        rest@,
                    ).union_prefer_right(self@));
                },
                None => {
                    assert(entries_map(rest@).union_prefer_right(self@) =~= self@);
                    break;
                },
            }
        }
    }
}

/// `m` with `value` at `key`, where there is a value.
pub open spec fn with_field(
    m: Map<Seq<char>, Seq<char>>,
    key: Seq<char>,
    value: Option<Seq<char>>,
) -> Map<Seq<char>, Seq<char>> {
    match value {
        Some(v) => m.insert(key, v),
        None => m,
    }
}

/// `m` has `value` at `key`.
pub open spec fn has_field(
    m: Map<Seq<char>, Seq<char>>,
    key: Seq<char>,
    value: Seq<char>,
) -> bool {
    m.contains_key(key) && m[key] == value
}

/// Puts `value` at `key`.
pub fn put(fields: &mut Table<String>, key: &str, value: &str)
    ensures
        final(fields)@ == old(fields)@.insert(key@, value@),
{
    fields.insert(key.to_owned(), value.to_owned());
}

/// Puts `value`, where there is one, at `key`.
pub fn put_opt(fields: &mut Table<String>, key: &str, value: Option<String>)
    ensures
        final(fields)@ == with_field(old(fields)@, key@, text::text_opt(value)),
{
    if let Some(v) = value {
        fields.insert(key.to_owned(), v);
    }
}

/// `m` with each of `names` as a member of `set`: a key `set` + name, with the value
/// `true`.
pub open spec fn with_members(
    m: Map<Seq<char>, Seq<char>>,
    set: Seq<char>,
    names: Seq<Seq<char>>,
) -> Map<Seq<char>, Seq<char>>
    decreases names.len(),
{
    if names.len() == 0 {
        m
    } else {
        with_members(m, set, names.drop_last()).insert(set + names.last(), "true"@)
    }
}

/// Puts each of `names` as a member of `set`.
pub fn put_members(fields: &mut Table<String>, set: &str, names: &Vec<String>)
    ensures
        final(fields)@ == with_members(old(fields)@, set@, text::texts(names@)),
{
    let ghost all = text::texts(names@);
    let ghost before = fields@;
    let mut i: usize = 0;
    while i < names.len()
        invariant
            i <= names@.len(),
            all == text::texts(names@),
            fields@ == with_members(before, set@, all.take(i as int)),
        decreases names@.len() - i,
    {
        assert(all.take(i + 1).drop_last() == all.take(i as int));
        assert(all.take(i + 1).last() == names@[i as int]@);
        let mut key = set.to_owned();
        key.append(names[i].as_str());
        fields.insert(key, "true".to_owned());
        i += 1;
    }
    assert(all.take(all.len() as int) == all);
}

/// `key` is a member of `set` under one of `names`.
pub open spec fn is_member(set: Seq<char>, names: Seq<Seq<char>>, key: Seq<char>) -> bool {
    exists|i: int| 0 <= i < names.len() && key == set + #[trigger] names[i]
}

/// Each of the names is a member, and at other keys nothing changes.
pub proof fn lemma_with_members(
    m: Map<Seq<char>, Seq<char>>,
    set: Seq<char>,
    names: Seq<Seq<char>>,
    key: Seq<char>,
)
    ensures
        with_members(m, set, names).contains_key(key) == (m.contains_key(key) || is_member(
            set,
            names,
            key,
        )),
        with_members(m, set, names)[key] == if is_member(set, names, key) {
            "true"@
        } else {
            m[key]
        },
    decreases names.len(),
{
    if names.len() > 0 {
        let init = names.drop_last();
        lemma_with_members(m, set, init, key);
        let last = names.len() - 1;
        if is_member(set, names, key) {
            let i = choose|i: int| 0 <= i < names.len() && key == set + #[trigger] names[i];
            if i < last {
                assert(key == set + init[i]);
            }
        }
        if is_member(set, init, key) {
            let i = choose|i: int| 0 <= i < init.len() && key == set + #[trigger] init[i];
            assert(key == set + names[i]);
        }
        if key == set + names.last() {
            assert(key == set + names[last]);
        }
    }
}

/// A key that differs from the name of a set at some index is no member of it.
pub proof fn lemma_not_member(set: Seq<char>, names: Seq<Seq<char>>, key: Seq<char>, i: int)
    requires
        0 <= i < set.len(),
        i >= key.len() || key[i] != set[i],
    ensures
        !is_member(set, names, key),
{
    if is_member(set, names, key) {
        let n = choose|n: int| 0 <= n < names.len() && key == set + #[trigger] names[n];
        assert((set + names[n])[i] == set[i]);
    }
}

/// A value that is there is put at its key, and one that is not changes nothing; at other
/// keys nothing changes either way.
pub proof fn law_with_field(
    m: Map<Seq<char>, Seq<char>>,
    key: Seq<char>,
    value: Seq<char>,
    other: Seq<char>,
)
    ensures
        has_field(with_field(m, key, Some(value)), key, value),
        with_field(m, key, None) == m,
        other != key ==> with_field(m, key, Some(value)).contains_key(other) == m.contains_key(
            other,
        ) && with_field(m, key, Some(value))[other] == m[other],
{
}

} // verus!
