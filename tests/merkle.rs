use pod2::containers::{Array, Dictionary, ValueSet, MAX_DEPTH};
use pod2::error::Error;
use pod2::hash::{FieldElements, Hasher};
use pod2::merkle::MerkleTree;
use pod2::value::Value;

struct ToyHasher;

impl Hasher for ToyHasher {
    // placeholder for a ghost item that only verification reads; never called
    fn spec_hash(input: FieldElements) -> FieldElements {
        input
    }

    fn hash_no_pad(input: &[u64]) -> [u64; 4] {
        const P: u64 = 0xffff_ffff_0000_0001;
        let mut s: [u64; 4] = [
            0x243f_6a88_85a3_08d3,
            0x1319_8a2e_0370_7344,
            0xa409_3822_299f_31d0,
            0x082e_fa98_ec4e_6c89,
        ];
        for (i, x) in input.iter().enumerate() {
            for l in 0..4 {
                s[l] = (s[l] ^ x.wrapping_add(i as u64 + 1))
                    .wrapping_mul(0x0000_0100_0000_01b3)
                    .rotate_left(17 + l as u32);
                s[(l + 1) % 4] ^= s[l];
            }
        }
        for l in 0..4 {
            s[l] = (s[l] ^ (input.len() as u64)).wrapping_mul(0x9e37_79b9_7f4a_7c15);
        }
        [s[0] % P, s[1] % P, s[2] % P, s[3] % P]
    }
}

type Tree = MerkleTree<ToyHasher>;

fn tiny_kvs() -> Vec<(Value, Value)> {
    let mut kvs = Vec::new();
    for i in 0..8i64 {
        if i == 1 {
            continue;
        }
        kvs.push((Value::from_i64(i), Value::from_i64(1000 + i)));
    }
    kvs.push((Value::from_i64(13), Value::from_i64(1013)));
    kvs
}

#[test]
fn test_merkletree() {
    let kvs = tiny_kvs();
    let key = Value::from_i64(13);
    let value = Value::from_i64(1013);
    let tree = Tree::new(32, &kvs).unwrap();
    let (v, proof) = tree.prove(&Value::from_i64(13)).unwrap();
    assert_eq!(v, Value::from_i64(1013));
    Tree::verify(32, tree.root(), &proof, &key, &value).unwrap();
}

#[test]
fn tiny_dictionary_get_prove_and_tamper() {
    let kvs = vec![
        (Value::from_i64(0), Value::from_i64(1000)),
        (Value::from_i64(2), Value::from_i64(1002)),
        (Value::from_i64(13), Value::from_i64(1013)),
    ];
    let tree = Tree::new(32, &kvs).unwrap();
    assert_eq!(tree.get(&Value::from_i64(13)), Ok(Value::from_i64(1013)));
    let (v, proof) = tree.prove(&Value::from_i64(13)).unwrap();
    assert_eq!(v, Value::from_i64(1013));
    assert_eq!(Tree::verify(32, tree.root(), &proof, &Value::from_i64(13), &v), Ok(()));
    assert_eq!(
        Tree::verify(32, tree.root(), &proof, &Value::from_i64(13), &Value::from_i64(9999)),
        Err(Error::ProofDoesNotVerify)
    );
}

#[test]
fn nonexistence_at_empty_child() {
    let kvs = vec![
        (Value::from_i64(0), Value::from_i64(1000)),
        (Value::from_i64(2), Value::from_i64(1002)),
        (Value::from_i64(13), Value::from_i64(1013)),
    ];
    let tree = Tree::new(32, &kvs).unwrap();
    let proof = tree.prove_nonexistence(&Value::from_i64(1)).unwrap();
    assert!(!proof.existence);
    // key 1 shares path bit 0 with key 13, the only key on that side
    assert_eq!(proof.other_leaf, Some((Value::from_i64(13), Value::from_i64(1013))));
    assert_eq!(Tree::verify_nonexistence(32, tree.root(), &proof, &Value::from_i64(1)), Ok(()));
    assert_eq!(tree.prove_nonexistence(&Value::from_i64(2)).unwrap_err(), Error::KeyExists);

    // keys 0 and 4 first differ at bit 2, so the child for path 0,1 stays empty
    let tree = Tree::new(32, &vec![(Value::from_i64(0), Value::from_i64(1)), (Value::from_i64(4), Value::from_i64(2))]).unwrap();
    let proof = tree.prove_nonexistence(&Value::from_i64(2)).unwrap();
    assert!(proof.other_leaf.is_none());
    assert_eq!(proof.siblings.len(), 2);
    assert_eq!(Tree::verify_nonexistence(32, tree.root(), &proof, &Value::from_i64(2)), Ok(()));
}

#[test]
fn nonexistence_at_other_leaf() {
    let kvs = vec![(Value::from_i64(0), Value::from_i64(1000))];
    let tree = Tree::new(32, &kvs).unwrap();
    // key 2 shares bit 0 with key 0 and ends at its leaf
    let proof = tree.prove_nonexistence(&Value::from_i64(2)).unwrap();
    assert_eq!(proof.other_leaf, Some((Value::from_i64(0), Value::from_i64(1000))));
    assert_eq!(Tree::verify_nonexistence(32, tree.root(), &proof, &Value::from_i64(2)), Ok(()));
    // the same proof does not show that key 0 is absent
    assert_eq!(
        Tree::verify_nonexistence(32, tree.root(), &proof, &Value::from_i64(0)),
        Err(Error::ProofDoesNotVerify)
    );
}

#[test]
fn build_is_order_independent() {
    let kvs = tiny_kvs();
    let mut rev = kvs.clone();
    rev.reverse();
    let mut rot = kvs.clone();
    rot.rotate_left(3);
    let a = Tree::new(32, &kvs).unwrap();
    let b = Tree::new(32, &rev).unwrap();
    let c = Tree::new(32, &rot).unwrap();
    assert_eq!(a.root(), b.root());
    assert_eq!(a.root(), c.root());
}

#[test]
fn every_key_round_trips() {
    let kvs = tiny_kvs();
    let tree = Tree::new(32, &kvs).unwrap();
    for (k, v) in kvs.iter() {
        let (got, proof) = tree.prove(k).unwrap();
        assert_eq!(got, *v);
        assert_eq!(Tree::verify(32, tree.root(), &proof, k, v), Ok(()));
    }
    for k in [1i64, 8, 9, 12, 14, 1 << 40] {
        let key = Value::from_i64(k);
        assert_eq!(tree.get(&key), Err(Error::KeyNotFound));
        assert!(!tree.contains(&key));
        let proof = tree.prove_nonexistence(&key).unwrap();
        assert_eq!(Tree::verify_nonexistence(32, tree.root(), &proof, &key), Ok(()));
    }
}

#[test]
fn flipped_sibling_is_rejected() {
    let kvs = tiny_kvs();
    let tree = Tree::new(32, &kvs).unwrap();
    let key = Value::from_i64(13);
    let (v, proof) = tree.prove(&key).unwrap();
    assert!(!proof.siblings.is_empty());
    for i in 0..proof.siblings.len() {
        let mut bad = proof.clone();
        bad.siblings[i].0 ^= 1;
        assert_eq!(
            Tree::verify(32, tree.root(), &bad, &key, &v),
            Err(Error::ProofDoesNotVerify)
        );
    }
}

#[test]
fn repeated_key_is_rejected() {
    let kvs = vec![
        (Value::from_i64(5), Value::from_i64(1)),
        (Value::from_i64(5), Value::from_i64(2)),
    ];
    assert_eq!(Tree::new(32, &kvs).err(), Some(Error::KeyExists));
}

#[test]
fn shallow_tree_reaches_max_depth() {
    // keys 0 and 2 agree on their first bit, so they cannot sit above depth 2
    let kvs = vec![
        (Value::from_i64(0), Value::from_i64(1)),
        (Value::from_i64(2), Value::from_i64(2)),
    ];
    assert_eq!(Tree::new(2, &kvs).err(), Some(Error::MaxDepthReached));
    assert!(Tree::new(3, &kvs).is_ok());
    let one = vec![(Value::from_i64(0), Value::from_i64(1))];
    assert_eq!(Tree::new(1, &one).err(), Some(Error::MaxDepthReached));
    let proof = Tree::new(3, &kvs).unwrap().prove(&Value::from_i64(0)).unwrap().1;
    assert_eq!(
        Tree::verify(1, Tree::new(3, &kvs).unwrap().root(), &proof, &Value::from_i64(0), &Value::from_i64(1)),
        Err(Error::MaxDepthReached)
    );
}

#[test]
fn empty_tree_has_null_root() {
    let tree = Tree::new(32, &Vec::new()).unwrap();
    assert_eq!(tree.root(), pod2::value::Hash(0, 0, 0, 0));
    let proof = tree.prove_nonexistence(&Value::from_i64(7)).unwrap();
    assert!(proof.siblings.is_empty());
    assert_eq!(Tree::verify_nonexistence(32, tree.root(), &proof, &Value::from_i64(7)), Ok(()));
}

#[test]
fn single_entry_root_is_node_of_leaf_and_null() {
    let k = Value::from_i64(3);
    let v = Value::from_i64(4);
    let tree = Tree::new(32, &vec![(k, v)]).unwrap();
    let leaf = pod2::hash::hash_leaf::<ToyHasher>(&k, &v);
    let null = pod2::value::Hash(0, 0, 0, 0);
    // key 3 has path bit 0 set: the leaf is the right child
    assert_eq!(tree.root(), pod2::hash::hash_nodes::<ToyHasher>(&null, &leaf));
}

#[test]
fn containers_commit_and_prove() {
    let h = |s: &str| pod2::hash::hash_str::<ToyHasher>(s);
    let dict = Dictionary::<ToyHasher>::new(&vec![
        (h("a"), Value::from_i64(1)),
        (h("b"), Value::from_i64(2)),
    ])
    .unwrap();
    let ka = Value::from_hash(h("a"));
    assert_eq!(dict.get(&ka), Ok(Value::from_i64(1)));
    let (v, p) = dict.prove(&ka).unwrap();
    assert_eq!(Dictionary::<ToyHasher>::verify(dict.commitment(), &p, &ka, &v), Ok(()));
    let kz = Value::from_hash(h("z"));
    let np = dict.prove_nonexistence(&kz).unwrap();
    assert_eq!(Dictionary::<ToyHasher>::verify_nonexistence(dict.commitment(), &np, &kz), Ok(()));

    let set = ValueSet::<ToyHasher>::new(&vec![
        Value::from_i64(10),
        Value::from_i64(20),
        Value::from_i64(10),
    ])
    .unwrap();
    assert!(set.contains(&Value::from_i64(20)));
    assert!(!set.contains(&Value::from_i64(30)));
    let sp = set.prove(&Value::from_i64(10)).unwrap();
    assert_eq!(ValueSet::<ToyHasher>::verify(set.commitment(), &sp, &Value::from_i64(10)), Ok(()));
    let snp = set.prove_nonexistence(&Value::from_i64(30)).unwrap();
    assert_eq!(
        ValueSet::<ToyHasher>::verify_nonexistence(set.commitment(), &snp, &Value::from_i64(30)),
        Ok(())
    );
    let twice = ValueSet::<ToyHasher>::new(&vec![Value::from_i64(20), Value::from_i64(10)]).unwrap();
    assert_eq!(set.commitment(), twice.commitment());

    let arr = Array::<ToyHasher>::new(&vec![Value::from_i64(7), Value::from_i64(8), Value::from_i64(9)]).unwrap();
    assert_eq!(arr.get(1), Ok(Value::from_i64(8)));
    assert_eq!(arr.get(3), Err(Error::KeyNotFound));
    let (v, p) = arr.prove(2).unwrap();
    assert_eq!(v, Value::from_i64(9));
    assert_eq!(Array::<ToyHasher>::verify(arr.commitment(), &p, 2, &v), Ok(()));
    assert_eq!(MAX_DEPTH, 32);
}

#[test]
fn iteration_lists_every_entry_once() {
    let kvs = tiny_kvs();
    let tree = Tree::new(32, &kvs).unwrap();
    let mut got = tree.iter();
    let mut want = kvs.clone();
    got.sort_by_key(|e| e.0 .0);
    want.sort_by_key(|e| e.0 .0);
    assert_eq!(got, want);
    let arr = Array::<ToyHasher>::new(&vec![Value::from_i64(7), Value::from_i64(8)]).unwrap();
    assert_eq!(arr.iter().len(), 2);
    let set = ValueSet::<ToyHasher>::new(&vec![Value::from_i64(7), Value::from_i64(7)]).unwrap();
    assert_eq!(set.iter().len(), 1);
    let dict = Dictionary::<ToyHasher>::new(&vec![]).unwrap();
    assert!(dict.iter().is_empty());
}

#[test]
fn depth_zero_empty_tree_proves_absence() {
    let tree = Tree::new(0, &Vec::new()).unwrap();
    let proof = tree.prove_nonexistence(&Value::from_i64(3)).unwrap();
    assert!(proof.siblings.is_empty());
    assert_eq!(Tree::verify_nonexistence(0, tree.root(), &proof, &Value::from_i64(3)), Ok(()));
}
