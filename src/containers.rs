use vstd::prelude::*;

use crate::error::Error;
use crate::hash::{hash_value, value_hash, Hasher};
use crate::merkle::{
    distinct_keys, entries, existence_outcome, fits, nonexistence_outcome, MerkleProof,
    MerkleTree,
};
use crate::value::{empty_value, i64_embedding, Value};

verus! {

/// The depth of the trees behind containers.
pub const MAX_DEPTH: usize = 32;

/// A key hash used as a tree key: the same four elements.
pub open spec fn key_value(k: crate::value::Hash) -> Value {
    Value(k.0, k.1, k.2, k.3)
}

/// The tree entries of a dictionary's entries.
pub open spec fn dict_entries(kvs: Seq<(crate::value::Hash, Value)>) -> Seq<(Value, Value)> {
    kvs.map_values(|p: (crate::value::Hash, Value)| (key_value(p.0), p.1))
}

/// A dictionary: leaf key is the hash of the user's key, leaf value the user's value.
pub struct Dictionary<H> {
    pub mt: MerkleTree<H>,
}

impl<H: Hasher> View for Dictionary<H> {
    type V = Map<Value, Value>;

    open spec fn view(&self) -> Map<Value, Value> {
        self.mt@
    }
}

impl<H: Hasher> Dictionary<H> {
    /// The container's tree entries, each key once.
    pub fn iter(&self) -> (r: Vec<(Value, Value)>)
        requires
            self.wf(),
        ensures
            distinct_keys(r@),
            entries(r@) == self@,
    {
        self.mt.iter()
    }

    pub open spec fn wf(&self) -> bool {
        self.mt.wf() && self.mt.max_depth == MAX_DEPTH
    }

    /// Builds the dictionary of the given entries.
    pub fn new(kvs: &Vec<(crate::value::Hash, Value)>) -> (r: Result<Self, Error>)
        ensures
            r.is_ok() <==> distinct_keys(dict_entries(kvs@)) && fits(
                entries(dict_entries(kvs@)),
                0,
                MAX_DEPTH as nat,
            ),
            r matches Ok(t) ==> t.wf() && t@ == entries(dict_entries(kvs@)),
            r matches Err(e) ==> e == Error::KeyExists || e == Error::MaxDepthReached,
    {
        let mut items: Vec<(Value, Value)> = Vec::new();
        let mut i: usize = 0;
        while i < kvs.len()
            invariant
                i <= kvs@.len(),
                items@ == dict_entries(kvs@.take(i as int)),
            decreases kvs.len() - i,
        {
            let (k, v) = kvs[i];
            items.push((Value(k.0, k.1, k.2, k.3), v));
            i = i + 1;
            proof {
                assert(items@ =~= dict_entries(kvs@.take(i as int)));
            }
        }
        proof {
            assert(kvs@.take(kvs@.len() as int) =~= kvs@);
        }
        match MerkleTree::<H>::new(MAX_DEPTH, &items) {
            Ok(mt) => Ok(Dictionary { mt }),
            Err(e) => Err(e),
        }
    }

    /// The dictionary's commitment: the root of its tree.
    pub fn commitment(&self) -> (r: crate::value::Hash)
        ensures
            r == self.mt.spec_root(),
    {
        self.mt.root()
    }

    pub fn get(&self, key: &Value) -> (r: Result<Value, Error>)
        requires
            self.wf(),
        ensures
            self@.contains_key(*key) ==> r == Ok::<Value, Error>(self@[*key]),
            !self@.contains_key(*key) ==> r == Err::<Value, Error>(Error::KeyNotFound),
    {
        self.mt.get(key)
    }

    pub fn prove(&self, key: &Value) -> (r: Result<(Value, MerkleProof), Error>)
        requires
            self.wf(),
        ensures
            !self@.contains_key(*key) ==> r == Err::<(Value, MerkleProof), Error>(
                Error::KeyNotFound,
            ),
            self@.contains_key(*key) ==> (r matches Ok((v, p)) && v == self@[*key]
                && existence_outcome::<H>(
                MAX_DEPTH as nat,
                self.mt.spec_root(),
                p.siblings@,
                *key,
                v,
            ) == Ok::<(), Error>(())),
    {
        self.mt.prove(key)
    }

    pub fn prove_nonexistence(&self, key: &Value) -> (r: Result<MerkleProof, Error>)
        requires
            self.wf(),
        ensures
            self@.contains_key(*key) ==> r == Err::<MerkleProof, Error>(Error::KeyExists),
            !self@.contains_key(*key) ==> (r matches Ok(p) && nonexistence_outcome::<H>(
                MAX_DEPTH as nat,
                self.mt.spec_root(),
                p.siblings@,
                p.other_leaf,
                *key,
            ) == Ok::<(), Error>(())),
    {
        self.mt.prove_nonexistence(key)
    }

    pub fn verify(root: crate::value::Hash, proof: &MerkleProof, key: &Value, value: &Value) -> (r: Result<(), Error>)
        ensures
            r == existence_outcome::<H>(MAX_DEPTH as nat, root, proof.siblings@, *key, *value),
    {
        MerkleTree::<H>::verify(MAX_DEPTH, root, proof, key, value)
    }

    pub fn verify_nonexistence(root: crate::value::Hash, proof: &MerkleProof, key: &Value) -> (r: Result<(), Error>)
        ensures
            r == nonexistence_outcome::<H>(
                MAX_DEPTH as nat,
                root,
                proof.siblings@,
                proof.other_leaf,
                *key,
            ),
    {
        MerkleTree::<H>::verify_nonexistence(MAX_DEPTH, root, proof, key)
    }
}

/// The tree entries of a set: each element's hash, mapped to `EMPTY`.
pub open spec fn set_map<H: Hasher>(s: Seq<Value>) -> Map<Value, Value> {
    Map::new(
        |k: Value| exists|i: int| 0 <= i < s.len() && k == key_value(value_hash::<H>(s[i])),
        |k: Value| empty_value(),
    )
}

/// A set: leaf key is the hash of the element, leaf value is unused (`EMPTY`).
pub struct ValueSet<H> {
    pub mt: MerkleTree<H>,
}

impl<H: Hasher> View for ValueSet<H> {
    type V = Map<Value, Value>;

    open spec fn view(&self) -> Map<Value, Value> {
        self.mt@
    }
}

impl<H: Hasher> ValueSet<H> {
    /// The container's tree entries, each key once.
    pub fn iter(&self) -> (r: Vec<(Value, Value)>)
        requires
            self.wf(),
        ensures
            distinct_keys(r@),
            entries(r@) == self@,
    {
        self.mt.iter()
    }

    /// The tree is well formed and every element maps to `EMPTY`.
    pub open spec fn wf(&self) -> bool {
        &&& self.mt.wf()
        &&& self.mt.max_depth == MAX_DEPTH
        &&& forall|k: Value| #[trigger] self@.contains_key(k) ==> self@[k] == empty_value()
    }

    /// Builds the set of the given elements; repeated elements count once.
    pub fn new(set: &Vec<Value>) -> (r: Result<Self, Error>)
        ensures
            r.is_ok() <==> fits(set_map::<H>(set@), 0, MAX_DEPTH as nat),
            r matches Ok(t) ==> t.wf() && t@ == set_map::<H>(set@),
            r.is_err() ==> r == Err::<Self, Error>(Error::MaxDepthReached),
    {
        let mut items: Vec<(Value, Value)> = Vec::new();
        let mut i: usize = 0;
        proof {
            assert(entries(items@) =~= set_map::<H>(set@.take(0)));
        }
        while i < set.len()
            invariant
                i <= set@.len(),
                distinct_keys(items@),
                entries(items@) == set_map::<H>(set@.take(i as int)),
                forall|j: int| 0 <= j < items@.len() ==> #[trigger] items@[j].1 == empty_value(),
            decreases set.len() - i,
        {
            let h = hash_value::<H>(&set[i]);
            let k = Value(h.0, h.1, h.2, h.3);
            let mut found = false;
            let mut j: usize = 0;
            while j < items.len()
                invariant
                    j <= items@.len(),
                    found <==> exists|l: int| 0 <= l < j && items@[l].0 == k,
                decreases items.len() - j,
            {
                if items[j].0 == k {
                    found = true;
                }
                j = j + 1;
            }
            let ghost old_items = items@;
            proof {
                crate::merkle::lemma_entries(items@);
            }
            if !found {
                items.push((k, Value::empty()));
            }
            proof {
                let t = set@.take(i + 1);
                let prev = set@.take(i as int);
                assert(t[i as int] == set@[i as int]);
                assert(k == key_value(value_hash::<H>(t[i as int])));
                assert forall|x: Value| #[trigger]
                    set_map::<H>(t).contains_key(x) <==> set_map::<H>(prev).insert(
                        k,
                        empty_value(),
                    ).contains_key(x) by {
                    if set_map::<H>(t).contains_key(x) {
                        let l = choose|l: int|
                            0 <= l < t.len() && x == key_value(value_hash::<H>(t[l]));
                        if l < i {
                            assert(prev[l] == t[l]);
                        }
                    }
                    if set_map::<H>(prev).contains_key(x) {
                        let l = choose|l: int|
                            0 <= l < prev.len() && x == key_value(value_hash::<H>(prev[l]));
                        assert(prev[l] == t[l]);
                    }
                }
                assert(set_map::<H>(t) =~= set_map::<H>(prev).insert(k, empty_value()));
                if !found {
                    assert(items@.drop_last() =~= old_items);
                    assert forall|a: int, b: int|
                        #![trigger items@[a], items@[b]]
                        0 <= a < b < items@.len() implies items@[a].0 != items@[b].0 by {
                        if b == items@.len() - 1 {
                            assert(old_items[a] == items@[a]);
                        } else {
                            assert(old_items[a] == items@[a]);
                            assert(old_items[b] == items@[b]);
                        }
                    }
                } else {
                    let l = choose|l: int| 0 <= l < old_items.len() && old_items[l].0 == k;
                    assert(entries(old_items).contains_key(k));
                    assert(set_map::<H>(prev).insert(k, empty_value()) =~= set_map::<H>(prev));
                }
                assert forall|l: int| 0 <= l < items@.len() implies #[trigger] items@[l].1
                    == empty_value() by {
                    if l < old_items.len() {
                        assert(old_items[l] == items@[l]);
                    }
                }
            }
            i = i + 1;
        }
        proof {
            assert(set@.take(set@.len() as int) =~= set@);
        }
        match MerkleTree::<H>::new(MAX_DEPTH, &items) {
            Ok(mt) => Ok(ValueSet { mt }),
            Err(e) => Err(e),
        }
    }

    /// The set's commitment: the root of its tree.
    pub fn commitment(&self) -> (r: crate::value::Hash)
        ensures
            r == self.mt.spec_root(),
    {
        self.mt.root()
    }

    /// Whether the set holds `value`.
    pub fn contains(&self, value: &Value) -> (r: bool)
        requires
            self.wf(),
        ensures
            r == self@.contains_key(key_value(value_hash::<H>(*value))),
    {
        let h = hash_value::<H>(value);
        self.mt.contains(&Value(h.0, h.1, h.2, h.3))
    }

    /// A proof that the set holds `value`.
    pub fn prove(&self, value: &Value) -> (r: Result<MerkleProof, Error>)
        requires
            self.wf(),
        ensures
            ({
                let k = key_value(value_hash::<H>(*value));
                &&& !self@.contains_key(k) ==> r == Err::<MerkleProof, Error>(Error::KeyNotFound)
                &&& self@.contains_key(k) ==> (r matches Ok(p) && existence_outcome::<H>(
                    MAX_DEPTH as nat,
                    self.mt.spec_root(),
                    p.siblings@,
                    k,
                    empty_value(),
                ) == Ok::<(), Error>(()))
            }),
    {
        let h = hash_value::<H>(value);
        let k = Value(h.0, h.1, h.2, h.3);
        match self.mt.prove(&k) {
            Ok((_, p)) => Ok(p),
            Err(e) => Err(e),
        }
    }

    /// A proof that the set does not hold `value`.
    pub fn prove_nonexistence(&self, value: &Value) -> (r: Result<MerkleProof, Error>)
        requires
            self.wf(),
        ensures
            ({
                let k = key_value(value_hash::<H>(*value));
                &&& self@.contains_key(k) ==> r == Err::<MerkleProof, Error>(Error::KeyExists)
                &&& !self@.contains_key(k) ==> (r matches Ok(p) && nonexistence_outcome::<H>(
                    MAX_DEPTH as nat,
                    self.mt.spec_root(),
                    p.siblings@,
                    p.other_leaf,
                    k,
                ) == Ok::<(), Error>(()))
            }),
    {
        let h = hash_value::<H>(value);
        self.mt.prove_nonexistence(&Value(h.0, h.1, h.2, h.3))
    }

    /// Verifies a proof that the set with the given root holds `value`.
    pub fn verify(root: crate::value::Hash, proof: &MerkleProof, value: &Value) -> (r: Result<(), Error>)
        ensures
            r == existence_outcome::<H>(
                MAX_DEPTH as nat,
                root,
                proof.siblings@,
                key_value(value_hash::<H>(*value)),
                empty_value(),
            ),
    {
        let h = hash_value::<H>(value);
        MerkleTree::<H>::verify(MAX_DEPTH, root, proof, &Value(h.0, h.1, h.2, h.3), &Value::empty())
    }

    /// Verifies a proof that the set with the given root does not hold `value`.
    pub fn verify_nonexistence(root: crate::value::Hash, proof: &MerkleProof, value: &Value) -> (r: Result<(), Error>)
        ensures
            r == nonexistence_outcome::<H>(
                MAX_DEPTH as nat,
                root,
                proof.siblings@,
                proof.other_leaf,
                key_value(value_hash::<H>(*value)),
            ),
    {
        let h = hash_value::<H>(value);
        MerkleTree::<H>::verify_nonexistence(MAX_DEPTH, root, proof, &Value(h.0, h.1, h.2, h.3))
    }
}

/// The tree entries of an array: each index, embedded as an integer, with its element.
pub open spec fn array_entries(a: Seq<Value>) -> Seq<(Value, Value)> {
    Seq::new(a.len(), |i: int| (i64_embedding(i as i64), a[i]))
}

/// An array: leaf key is the index as an integer, leaf value the element.
pub struct Array<H> {
    pub mt: MerkleTree<H>,
}

impl<H: Hasher> View for Array<H> {
    type V = Map<Value, Value>;

    open spec fn view(&self) -> Map<Value, Value> {
        self.mt@
    }
}

impl<H: Hasher> Array<H> {
    /// The container's tree entries, each key once.
    pub fn iter(&self) -> (r: Vec<(Value, Value)>)
        requires
            self.wf(),
        ensures
            distinct_keys(r@),
            entries(r@) == self@,
    {
        self.mt.iter()
    }

    pub open spec fn wf(&self) -> bool {
        self.mt.wf() && self.mt.max_depth == MAX_DEPTH
    }

    /// Builds the array of the given elements.
    pub fn new(array: &Vec<Value>) -> (r: Result<Self, Error>)
        requires
            array@.len() <= i64::MAX,
        ensures
            r.is_ok() <==> distinct_keys(array_entries(array@)) && fits(
                entries(array_entries(array@)),
                0,
                MAX_DEPTH as nat,
            ),
            r matches Ok(t) ==> t.wf() && t@ == entries(array_entries(array@)),
            r matches Err(e) ==> e == Error::KeyExists || e == Error::MaxDepthReached,
    {
        let mut items: Vec<(Value, Value)> = Vec::new();
        let mut i: usize = 0;
        while i < array.len()
            invariant
                i <= array@.len() <= i64::MAX,
                items@ == array_entries(array@.take(i as int)),
            decreases array.len() - i,
        {
            items.push((Value::from_i64(i as i64), array[i]));
            i = i + 1;
            proof {
                assert(items@ =~= array_entries(array@.take(i as int)));
            }
        }
        proof {
            assert(array@.take(array@.len() as int) =~= array@);
        }
        match MerkleTree::<H>::new(MAX_DEPTH, &items) {
            Ok(mt) => Ok(Array { mt }),
            Err(e) => Err(e),
        }
    }

    /// The array's commitment: the root of its tree.
    pub fn commitment(&self) -> (r: crate::value::Hash)
        ensures
            r == self.mt.spec_root(),
    {
        self.mt.root()
    }

    /// The element at index `i`.
    pub fn get(&self, i: usize) -> (r: Result<Value, Error>)
        requires
            self.wf(),
            i <= i64::MAX,
        ensures
            self@.contains_key(i64_embedding(i as i64)) ==> r == Ok::<Value, Error>(
                self@[i64_embedding(i as i64)],
            ),
            !self@.contains_key(i64_embedding(i as i64)) ==> r == Err::<Value, Error>(
                Error::KeyNotFound,
            ),
    {
        self.mt.get(&Value::from_i64(i as i64))
    }

    /// The element at index `i` with a proof of its existence.
    pub fn prove(&self, i: usize) -> (r: Result<(Value, MerkleProof), Error>)
        requires
            self.wf(),
            i <= i64::MAX,
        ensures
            ({
                let k = i64_embedding(i as i64);
                &&& !self@.contains_key(k) ==> r == Err::<(Value, MerkleProof), Error>(
                    Error::KeyNotFound,
                )
                &&& self@.contains_key(k) ==> (r matches Ok((v, p)) && v == self@[k]
                    && existence_outcome::<H>(
                    MAX_DEPTH as nat,
                    self.mt.spec_root(),
                    p.siblings@,
                    k,
                    v,
                ) == Ok::<(), Error>(()))
            }),
    {
        self.mt.prove(&Value::from_i64(i as i64))
    }

    /// Verifies a proof that the array with the given root holds `value` at index `i`.
    pub fn verify(root: crate::value::Hash, proof: &MerkleProof, i: usize, value: &Value) -> (r: Result<(), Error>)
        requires
            i <= i64::MAX,
        ensures
            r == existence_outcome::<H>(
                MAX_DEPTH as nat,
                root,
                proof.siblings@,
                i64_embedding(i as i64),
                *value,
            ),
    {
        MerkleTree::<H>::verify(MAX_DEPTH, root, proof, &Value::from_i64(i as i64), value)
    }
}

} // verus!
