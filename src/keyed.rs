use vstd::prelude::*;

verus! {

/// The mathematical value of an ordered list of scopes.
pub open spec fn scopes_view(k: Seq<String>) -> Seq<Seq<char>> {
    k.map_values(|s: String| s@)
}

/// One row of a [`KeyedTable`].
pub struct KeyedEntry<V> {
    pub key: Vec<String>,
    pub value: V,
}

/// The value stored under `key`: that of the first row whose key equals it.
pub open spec fn lookup<V>(rows: Seq<KeyedEntry<V>>, key: Seq<Seq<char>>) -> Option<V>
    decreases rows.len(),
{
    if rows.len() == 0 {
        None
    } else if scopes_view(rows[0].key@) == key {
        Some(rows[0].value)
    } else {
        lookup(rows.drop_first(), key)
    }
}

/// `i` is the first row holding `key`.
pub open spec fn first_match<V>(rows: Seq<KeyedEntry<V>>, key: Seq<Seq<char>>, i: int) -> bool {
    &&& 0 <= i < rows.len()
    &&& scopes_view(rows[i].key@) == key
    &&& forall|j: int| 0 <= j < i ==> scopes_view(#[trigger] rows[j].key@) != key
}

proof fn lemma_lookup_first<V>(rows: Seq<KeyedEntry<V>>, key: Seq<Seq<char>>, i: int)
    requires
        first_match(rows, key, i),
    ensures
        lookup(rows, key) == Some(rows[i].value),
    decreases i,
{
    if i > 0 {
        assert(scopes_view(rows[0].key@) != key);
        let rest = rows.drop_first();
        assert forall|j: int| 0 <= j < i - 1 implies scopes_view(#[trigger] rest[j].key@) != key by {
            assert(rest[j] == rows[j + 1]);
        }
        lemma_lookup_first(rest, key, i - 1);
    }
}

proof fn lemma_lookup_none<V>(rows: Seq<KeyedEntry<V>>, key: Seq<Seq<char>>)
    requires
        forall|j: int| 0 <= j < rows.len() ==> scopes_view(#[trigger] rows[j].key@) != key,
    ensures
        lookup(rows, key) is None,
    decreases rows.len(),
{
    if rows.len() > 0 {
        assert(scopes_view(rows[0].key@) != key);
        let rest = rows.drop_first();
        assert forall|j: int| 0 <= j < rest.len() implies scopes_view(#[trigger] rest[j].key@)
            != key by {
            assert(rest[j] == rows[j + 1]);
        }
        lemma_lookup_none(rest, key);
    }
}

proof fn lemma_lookup_update<V>(
    rows: Seq<KeyedEntry<V>>,
    key: Seq<Seq<char>>,
    i: int,
    e: KeyedEntry<V>,
    other: Seq<Seq<char>>,
)
    requires
        first_match(rows, key, i),
        scopes_view(e.key@) == key,
    ensures
        lookup(rows.update(i, e), other) == if other == key {
            Some(e.value)
        } else {
            lookup(rows, other)
        },
    decreases i,
{
    let new_rows = rows.update(i, e);
    if i == 0 {
        assert(new_rows.drop_first() =~= rows.drop_first());
    } else {
        let rest = rows.drop_first();
        assert forall|j: int| 0 <= j < i - 1 implies scopes_view(#[trigger] rest[j].key@) != key by {
            assert(rest[j] == rows[j + 1]);
        }
        assert(new_rows.drop_first() =~= rest.update(i - 1, e));
        lemma_lookup_update(rest, key, i - 1, e, other);
    }
}

proof fn lemma_lookup_push<V>(rows: Seq<KeyedEntry<V>>, e: KeyedEntry<V>, other: Seq<Seq<char>>)
    ensures
        lookup(rows.push(e), other) == if lookup(rows, other) is Some {
            lookup(rows, other)
        } else if scopes_view(e.key@) == other {
            Some(e.value)
        } else {
            None
        },
    decreases rows.len(),
{
    if rows.len() > 0 {
        assert(rows.push(e).drop_first() =~= rows.drop_first().push(e));
        assert(rows.push(e)[0] == rows[0]);
        lemma_lookup_push(rows.drop_first(), e, other);
    } else {
        assert(rows.push(e)[0] == e);
        assert(rows.push(e).drop_first().len() == 0);
        assert(lookup(rows.push(e).drop_first(), other) is None);
    }
}

/// Whether two scope lists are equal, element by element.
pub fn scopes_equal(a: &Vec<String>, b: &Vec<String>) -> (r: bool)
    ensures
        r == (scopes_view(a@) == scopes_view(b@)),
{
    if a.len() != b.len() {
        assert(scopes_view(a@).len() != scopes_view(b@).len());
        return false;
    }
    let mut i: usize = 0;
    while i < a.len()
        invariant
            a.len() == b.len(),
            i <= a.len(),
            forall|j: int| 0 <= j < i ==> a@[j]@ == b@[j]@,
        decreases a.len() - i,
    {
        if a[i] != b[i] {
            assert(scopes_view(a@)[i as int] != scopes_view(b@)[i as int]);
            return false;
        }
        i = i + 1;
    }
    assert(scopes_view(a@) =~= scopes_view(b@));
    true
}

/// A copy of a scope list with the same value.
pub fn copy_scopes(k: &Vec<String>) -> (r: Vec<String>)
    ensures
        scopes_view(r@) == scopes_view(k@),
{
    let mut r: Vec<String> = Vec::new();
    let mut i: usize = 0;
    while i < k.len()
        invariant
            i <= k.len(),
            r@.len() == i,
            forall|j: int| 0 <= j < i ==> r@[j]@ == k@[j]@,
        decreases k.len() - i,
    {
        r.push(k[i].clone());
        i = i + 1;
    }
    assert(scopes_view(r@) =~= scopes_view(k@));
    r
}

/// A table from ordered scope lists to values. Keys compare structurally:
/// two lists with the same strings in the same order are one key.
pub struct KeyedTable<V> {
    rows: Vec<KeyedEntry<V>>,
}

impl<V> KeyedTable<V> {
    /// The value stored under `key`, if any.
    pub closed spec fn get_spec(&self, key: Seq<Seq<char>>) -> Option<V> {
        lookup(self.rows@, key)
    }

    pub fn new() -> (r: Self)
        ensures
            forall|k: Seq<Seq<char>>| (#[trigger] r.get_spec(k)) is None,
    {
        KeyedTable { rows: Vec::new() }
    }

    fn find(&self, key: &Vec<String>) -> (r: Option<usize>)
        ensures
            match r {
                Some(i) => first_match(self.rows@, scopes_view(key@), i as int),
                None => forall|j: int|
                    0 <= j < self.rows@.len() ==> scopes_view(#[trigger] self.rows@[j].key@)
                        != scopes_view(key@),
            },
    {
        let mut i: usize = 0;
        while i < self.rows.len()
            invariant
                i <= self.rows@.len(),
                forall|j: int|
                    0 <= j < i ==> scopes_view(#[trigger] self.rows@[j].key@) != scopes_view(
                        key@,
                    ),
            decreases self.rows@.len() - i,
        {
            if scopes_equal(&self.rows[i].key, key) {
                return Some(i);
            }
            i = i + 1;
        }
        None
    }

    /// The value stored under `key`.
    pub fn get(&self, key: &Vec<String>) -> (r: Option<&V>)
        ensures
            match r {
                Some(v) => self.get_spec(scopes_view(key@)) == Some(*v),
                None => self.get_spec(scopes_view(key@)) is None,
            },
    {
        match self.find(key) {
            Some(i) => {
                proof {
                    lemma_lookup_first(self.rows@, scopes_view(key@), i as int);
                }
                Some(&self.rows[i].value)
            },
            None => {
                proof {
                    lemma_lookup_none(self.rows@, scopes_view(key@));
                }
                None
            },
        }
    }

    /// Stores `value` under `key`, replacing what was there; other keys keep their values.
    pub fn set(&mut self, key: &Vec<String>, value: V)
        ensures
            forall|k: Seq<Seq<char>>|
                #[trigger] final(self).get_spec(k) == if k == scopes_view(key@) {
                    Some(value)
                } else {
                    old(self).get_spec(k)
                },
    {
        let ghost old_rows = self.rows@;
        let e = KeyedEntry { key: copy_scopes(key), value };
        match self.find(key) {
            Some(i) => {
                self.rows.set(i, e);
                proof {
                    assert forall|k: Seq<Seq<char>>|
                        #[trigger] lookup(self.rows@, k) == if k == scopes_view(key@) {
                            Some(value)
                        } else {
                            lookup(old_rows, k)
                        } by {
                        lemma_lookup_update(old_rows, scopes_view(key@), i as int, e, k);
                    }
                }
            },
            None => {
                self.rows.push(e);
                proof {
                    assert forall|k: Seq<Seq<char>>|
                        #[trigger] lookup(self.rows@, k) == if k == scopes_view(key@) {
                            Some(value)
                        } else {
                            lookup(old_rows, k)
                        } by {
                        lemma_lookup_none(old_rows, scopes_view(key@));
                        lemma_lookup_push(old_rows, e, k);
                    }
                }
            },
        }
    }

    /// Stores `value` under `key` and returns what was stored there before.
    pub fn replace(&mut self, key: &Vec<String>, value: V) -> (r: Option<V>)
        ensures
            r == old(self).get_spec(scopes_view(key@)),
            forall|k: Seq<Seq<char>>|
                #[trigger] final(self).get_spec(k) == if k == scopes_view(key@) {
                    Some(value)
                } else {
                    old(self).get_spec(k)
                },
    {
        let ghost old_rows = self.rows@;
        let e = KeyedEntry { key: copy_scopes(key), value };
        match self.find(key) {
            Some(i) => {
                let prev = self.rows.remove(i);
                self.rows.insert(i, e);
                proof {
                    assert(self.rows@ =~= old_rows.update(i as int, e));
                    lemma_lookup_first(old_rows, scopes_view(key@), i as int);
                    assert forall|k: Seq<Seq<char>>|
                        #[trigger] lookup(self.rows@, k) == if k == scopes_view(key@) {
                            Some(value)
                        } else {
                            lookup(old_rows, k)
                        } by {
                        lemma_lookup_update(old_rows, scopes_view(key@), i as int, e, k);
                    }
                }
                Some(prev.value)
            },
            None => {
                self.rows.push(e);
                proof {
                    lemma_lookup_none(old_rows, scopes_view(key@));
                    assert forall|k: Seq<Seq<char>>|
                        #[trigger] lookup(self.rows@, k) == if k == scopes_view(key@) {
                            Some(value)
                        } else {
                            lookup(old_rows, k)
                        } by {
                        lemma_lookup_push(old_rows, e, k);
                    }
                }
                None
            },
        }
    }

    /// Removes every key.
    pub fn clear(&mut self)
        ensures
            forall|k: Seq<Seq<char>>| (#[trigger] final(self).get_spec(k)) is None,
    {
        self.rows = Vec::new();
    }
}

} // verus!
