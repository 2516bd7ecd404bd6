use vstd::prelude::*;

verus! {

/// A finite map from names to values.
///
/// Entries are kept in the order in which they were written; a later entry
/// for a name overrides every earlier one, so the map seen by the contracts
/// is the fold of the entries from first to last.
pub struct NameMap<V> {
    entries: Vec<(String, V)>,
}

/// The map denoted by a list of entries: each entry overrides the earlier ones.
pub open spec fn entries_map<V>(s: Seq<(String, V)>) -> Map<Seq<char>, V>
    decreases s.len(),
{
    if s.len() == 0 {
        Map::empty()
    } else {
        entries_map(s.drop_last()).insert(s.last().0@, s.last().1)
    }
}

proof fn lemma_entries_map_found<V>(s: Seq<(String, V)>, k: Seq<char>, j: int)
    requires
        0 <= j < s.len(),
        s[j].0@ == k,
        forall|i: int| j < i < s.len() ==> s[i].0@ != k,
    ensures
        entries_map(s).contains_key(k),
        entries_map(s)[k] == s[j].1,
    decreases s.len(),
{
    if j < s.len() - 1 {
        let t = s.drop_last();
        assert forall|i: int| j < i < t.len() implies t[i].0@ != k by {
            assert(t[i] == s[i]);
        }
        lemma_entries_map_found(t, k, j);
    }
}

proof fn lemma_entries_map_absent<V>(s: Seq<(String, V)>, k: Seq<char>)
    requires
        forall|i: int| 0 <= i < s.len() ==> s[i].0@ != k,
    ensures
        !entries_map(s).contains_key(k),
    decreases s.len(),
{
    if s.len() > 0 {
        let t = s.drop_last();
        assert forall|i: int| 0 <= i < t.len() implies t[i].0@ != k by {
            assert(t[i] == s[i]);
        }
        lemma_entries_map_absent(t, k);
    }
}

proof fn lemma_entries_map_key_at<V>(s: Seq<(String, V)>, k: Seq<char>)
    requires
        entries_map(s).contains_key(k),
    ensures
        exists|i: int| 0 <= i < s.len() && (#[trigger] s[i]).0@ == k,
    decreases s.len(),
{
    if s.len() > 0 && s.last().0@ != k {
        let t = s.drop_last();
        lemma_entries_map_key_at(t, k);
        let i = choose|i: int| 0 <= i < t.len() && (#[trigger] t[i]).0@ == k;
        assert(s[i] == t[i]);
    } else if s.len() > 0 {
        assert(s[s.len() - 1].0@ == k);
    }
}

/// The character sequences of a list of names.
pub open spec fn key_views(v: Seq<String>) -> Seq<Seq<char>> {
    v.map_values(|s: String| s@)
}

/// A map of names to names, each taken by its characters.
pub open spec fn name_views(m: Map<Seq<char>, String>) -> Map<Seq<char>, Seq<char>> {
    m.map_values(|s: String| s@)
}

impl<V> View for NameMap<V> {
    type V = Map<Seq<char>, V>;

    closed spec fn view(&self) -> Map<Seq<char>, V> {
        entries_map(self.entries@)
    }
}

impl<V> NameMap<V> {
    /// The empty map.
    pub fn new() -> (m: Self)
        ensures
            m@ == Map::<Seq<char>, V>::empty(),
    {
        NameMap { entries: Vec::new() }
    }

    /// The value bound to `key`, if any.
    pub fn get(&self, key: &String) -> (r: Option<&V>)
        ensures
            r is Some <==> self@.contains_key(key@),
            r matches Some(v) ==> *v == self@[key@],
    {
        let mut i = self.entries.len();
        while i > 0
            invariant
                i <= self.entries@.len(),
                forall|j: int| i <= j < self.entries@.len() ==> self.entries@[j].0@ != key@,
            decreases i,
        {
            i = i - 1;
            if self.entries[i].0 == *key {
                proof {
                    lemma_entries_map_found(self.entries@, key@, i as int);
                }
                return Some(&self.entries[i].1);
            }
        }
        proof {
            lemma_entries_map_absent(self.entries@, key@);
        }
        None
    }

    /// Whether `key` is bound.
    pub fn contains_key(&self, key: &String) -> (r: bool)
        ensures
            r == self@.contains_key(key@),
    {
        self.get(key).is_some()
    }

    /// Binds `key` to `value`, replacing any earlier binding.
    pub fn insert(&mut self, key: String, value: V)
        ensures
            final(self)@ == old(self)@.insert(key@, value),
    {
        self.entries.push((key, value));
        proof {
            assert(self.entries@.drop_last() == old(self).entries@);
        }
    }
}

impl NameMap<String> {
    /// The names bound to a name equal to `value`.
    pub fn keys_with_value(&self, value: &String) -> (keys: Vec<String>)
        ensures
            forall|k: Seq<char>|
                (self@.contains_key(k) && self@[k]@ == value@) <==> #[trigger] key_views(
                    keys@,
                ).contains(k),
    {
        let mut keys: Vec<String> = Vec::new();
        let n = self.entries.len();
        for i in 0..n
            invariant
                n == self.entries@.len(),
                forall|k: Seq<char>|
                    #[trigger] key_views(keys@).contains(k) ==> (self@.contains_key(k) && self@[k]@
                        == value@),
                forall|j: int|
                    0 <= j < i && self@.contains_key((#[trigger] self.entries@[j]).0@)
                        && self@[self.entries@[j].0@]@ == value@ ==> key_views(keys@).contains(
                        self.entries@[j].0@,
                    ),
        {
            let ghost before = keys@;
            let key = &self.entries[i].0;
            match self.get(key) {
                Some(v) => {
                    if *v == *value {
                        keys.push(key.clone());
                        assert(key_views(keys@) =~= key_views(before).push(key@));
                        assert(key_views(keys@)[before.len() as int] == key@);
                    }
                },
                None => {},
            }
            assert forall|k: Seq<char>| #[trigger] key_views(keys@).contains(k) implies (
            self@.contains_key(k) && self@[k]@ == value@) by {
                if !key_views(before).contains(k) {
                    let w = choose|w: int| 0 <= w < keys@.len() && key_views(keys@)[w] == k;
                    assert(w == before.len());
                } else {
                }
            }
            assert forall|j: int|
                0 <= j < i + 1 && self@.contains_key((#[trigger] self.entries@[j]).0@)
                    && self@[self.entries@[j].0@]@ == value@ implies key_views(keys@).contains(
                self.entries@[j].0@,
            ) by {
                if j < i {
                    let w = choose|w: int| 0 <= w < before.len() && key_views(before)[w] == self.entries@[j].0@;
                    assert(key_views(keys@)[w] == key_views(before)[w]);
                }
            }
        }
        assert forall|k: Seq<char>| (self@.contains_key(k) && self@[k]@ == value@) implies #[trigger] key_views(
            keys@,
        ).contains(k) by {
            lemma_entries_map_key_at(self.entries@, k);
            let j = choose|j: int| 0 <= j < self.entries@.len() && (#[trigger] self.entries@[j]).0@ == k;
        }
        keys
    }
}

/// A finite set of names.
pub struct NameSet {
    map: NameMap<()>,
}

impl View for NameSet {
    type V = Set<Seq<char>>;

    closed spec fn view(&self) -> Set<Seq<char>> {
        self.map@.dom()
    }
}

impl NameSet {
    /// The empty set.
    pub fn new() -> (s: Self)
        ensures
            s@ == Set::<Seq<char>>::empty(),
    {
        let s = NameSet { map: NameMap::new() };
        assert(s@ =~= Set::<Seq<char>>::empty());
        s
    }

    /// Whether `name` belongs to the set.
    pub fn contains(&self, name: &String) -> (r: bool)
        ensures
            r == self@.contains(name@),
    {
        self.map.contains_key(name)
    }

    /// Adds `name` to the set.
    pub fn insert(&mut self, name: String)
        ensures
            final(self)@ == old(self)@.insert(name@),
    {
        self.map.insert(name, ());
        assert(self@ =~= old(self)@.insert(name@));
    }
}

} // verus!
