use std::sync::Arc;
use vstd::hash_map::StringHashMap;
use vstd::prelude::*;

verus! {

/// Why the store refused a request.
#[derive(PartialEq, Eq, Debug)]
pub enum StorageError {
    /// No value is stored under this key.
    InvalidKey(String),
}

impl StorageError {
    /// The key that the error is about.
    pub open spec fn key(self) -> Seq<char> {
        match self {
            StorageError::InvalidKey(k) => k@,
        }
    }

    /// The text that the error is reported with.
    pub open spec fn spec_message(self) -> Seq<char> {
        match self {
            StorageError::InvalidKey(k) => seq!['I', 'n', 'v', 'a', 'l', 'i', 'd', ' ', 'k', 'e', 'y', ' ']
                + k@,
        }
    }

    pub fn message(&self) -> (r: String)
        ensures
            r@ == self.spec_message(),
    {
        match self {
            StorageError::InvalidKey(k) => {
                proof {
                    reveal_strlit("Invalid key ");
                }
                let mut text = String::from_str("Invalid key ");
                text.append(k.as_str());
                text
            },
        }
    }
}

/// What a lookup of `key` in a store with contents `m` answers: the value, or
/// the key that is missing.
pub open spec fn spec_lookup(m: Map<Seq<char>, Seq<char>>, key: Seq<char>) -> Result<
    Seq<char>,
    Seq<char>,
> {
    if m.contains_key(key) {
        Ok(m[key])
    } else {
        Err(key)
    }
}

/// The answer of a lookup, as characters.
pub open spec fn lookup_view(r: Result<String, StorageError>) -> Result<Seq<char>, Seq<char>> {
    match r {
        Ok(v) => Ok(v@),
        Err(e) => Err(e.key()),
    }
}

/// A map from keys to values, both text.
pub struct Storage(StringHashMap<String>);

impl View for Storage {
    type V = Map<Seq<char>, Seq<char>>;

    closed spec fn view(&self) -> Map<Seq<char>, Seq<char>> {
        self.0@.map_values(|v: String| v@)
    }
}

impl Storage {
    /// An empty store, ready to be shared.
    pub fn new() -> (r: Arc<Storage>)
        ensures
            r@ == Map::<Seq<char>, Seq<char>>::empty(),
    {
        let r = Arc::new(Storage(StringHashMap::new()));
        assert(r@ =~= Map::<Seq<char>, Seq<char>>::empty());
        r
    }

    /// Stores `value` under `key`, replacing what was stored there. This never fails.
    pub fn insert(&mut self, key: &str, value: &str) -> (r: Result<(), StorageError>)
        ensures
            r is Ok,
            final(self)@ == old(self)@.insert(key@, value@),
    {
        let k = String::from_str(key);
        let v = String::from_str(value);
        self.0.insert(k, v);
        assert(self@ =~= old(self)@.insert(key@, value@));
        Ok(())
    }

    /// The value stored under `key`; an `InvalidKey` error naming the key when there is none.
    pub fn get(&self, key: &str) -> (r: Result<String, StorageError>)
        ensures
            lookup_view(r) == spec_lookup(self@, key@),
    {
        match self.0.get(key) {
            Some(v) => Ok(v.clone()),
            None => Err(StorageError::InvalidKey(String::from_str(key))),
        }
    }
}

/// A lookup right after a write of `key` answers the written value; a lookup of
/// any other key answers what it answered before the write.
pub proof fn lemma_lookup_after_insert(
    m: Map<Seq<char>, Seq<char>>,
    key: Seq<char>,
    value: Seq<char>,
    other: Seq<char>,
)
    ensures
        spec_lookup(m.insert(key, value), key) == Ok::<Seq<char>, Seq<char>>(value),
        other != key ==> spec_lookup(m.insert(key, value), other) == spec_lookup(m, other),
{
}

/// The contents after the inserts of `pairs`, in order, each a key and a value.
pub open spec fn insert_all(m: Map<Seq<char>, Seq<char>>, pairs: Seq<(Seq<char>, Seq<char>)>) -> Map<
    Seq<char>,
    Seq<char>,
>
    decreases pairs.len(),
{
    if pairs.len() == 0 {
        m
    } else {
        insert_all(m.insert(pairs[0].0, pairs[0].1), pairs.drop_first())
    }
}

/// A lookup of `key` after a write of `key` answers the written value, however
/// many writes of other keys follow the write.
pub proof fn lemma_lookup_after_later_inserts(
    m: Map<Seq<char>, Seq<char>>,
    key: Seq<char>,
    value: Seq<char>,
    later: Seq<(Seq<char>, Seq<char>)>,
)
    requires
        forall|i: int| 0 <= i < later.len() ==> (#[trigger] later[i]).0 != key,
    ensures
        spec_lookup(insert_all(m.insert(key, value), later), key) == Ok::<Seq<char>, Seq<char>>(
            value,
        ),
    decreases later.len(),
{
    if later.len() > 0 {
        let m1 = m.insert(key, value).insert(later[0].0, later[0].1);
        assert(m1 =~= m.insert(later[0].0, later[0].1).insert(key, value));
        assert forall|i: int| 0 <= i < later.drop_first().len() implies (
        #[trigger] later.drop_first()[i]).0 != key by {
            assert(later.drop_first()[i] == later[i + 1]);
        }
        lemma_lookup_after_later_inserts(
            m.insert(later[0].0, later[0].1),
            key,
            value,
            later.drop_first(),
        );
    }
}

/// A fresh store answers every lookup with the missing key.
pub proof fn lemma_lookup_empty(key: Seq<char>)
    ensures
        spec_lookup(Map::empty(), key) == Err::<Seq<char>, Seq<char>>(key),
{
}

} // verus!
