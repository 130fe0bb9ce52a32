use vstd::prelude::*;

use crate::error::Error;
use crate::hash::{hash_leaf, hash_nodes, hash_of_limbs, leaf_hash, node_hash, Hasher};
use crate::value::{null_hash, Value};

verus! {

/// Bit `i` of a key's path: bit `i % 64` of limb `i / 64`, which is bit `i % 8` of byte
/// `i / 8` of the key's little-endian bytes. Bit `i` selects the child at level `i + 1`.
pub open spec fn bit(k: Value, i: nat) -> bool {
    ((k.limbs()[(i / 64) as int] >> ((i % 64) as u64)) & 1u64) == 1u64
}

/// Whether two keys have the same first `n` path bits.
pub open spec fn agree(a: Value, b: Value, n: int) -> bool {
    forall|i: nat| i < n ==> bit(a, i) == bit(b, i)
}

/// Computes bit `i` of a key's path.
pub fn key_bit(k: &Value, i: usize) -> (r: bool)
    requires
        i < 256,
    ensures
        r == bit(*k, i as nat),
{
    let limb = if i < 64 {
        k.0
    } else if i < 128 {
        k.1
    } else if i < 192 {
        k.2
    } else {
        k.3
    };
    (limb >> ((i % 64) as u64)) & 1 == 1
}

/// A node of the sparse tree. Leaves and intermediates carry their hash.
#[derive(Debug)]
pub enum Node {
    Empty,
    Leaf(Value, Value, crate::value::Hash),
    Intermediate(Box<Node>, Box<Node>, crate::value::Hash),
}

impl Node {
    pub open spec fn spec_hash(&self) -> crate::value::Hash {
        match *self {
            Node::Empty => null_hash(),
            Node::Leaf(_, _, h) => h,
            Node::Intermediate(_, _, h) => h,
        }
    }

    /// The node's hash; an empty node hashes to `NULL`.
    pub fn hash(&self) -> (r: crate::value::Hash)
        ensures
            r == self.spec_hash(),
    {
        match self {
            Node::Empty => crate::value::Hash::null(),
            Node::Leaf(_, _, h) => *h,
            Node::Intermediate(_, _, h) => *h,
        }
    }
}

/// The entries of `m` whose path bit `lvl` is `b`.
pub open spec fn half(m: Map<Value, Value>, lvl: nat, b: bool) -> Map<Value, Value> {
    m.restrict(m.dom().filter(|x: Value| bit(x, lvl) == b))
}

/// The tree that holds exactly the entries of `m` below a node at level `lvl`: nothing for no
/// entry, a leaf for a single entry (except at the root, which is always an intermediate),
/// and otherwise an intermediate whose children split the entries by path bit `lvl`.
pub open spec fn canon<H: Hasher>(m: Map<Value, Value>, lvl: nat, d: nat) -> Node
    decreases d - lvl,
{
    if m.dom().len() == 0 {
        Node::Empty
    } else if m.dom().len() == 1 && lvl > 0 {
        let k = m.dom().choose();
        Node::Leaf(k, m[k], leaf_hash::<H>(k, m[k]))
    } else if lvl + 1 < d {
        let l = canon::<H>(half(m, lvl, false), lvl + 1, d);
        let r = canon::<H>(half(m, lvl, true), lvl + 1, d);
        Node::Intermediate(Box::new(l), Box::new(r), node_hash::<H>(l.spec_hash(), r.spec_hash()))
    } else {
        Node::Empty
    }
}

/// Whether the entries of `m` can stand below a node at level `lvl` of a tree of depth `d`:
/// every leaf sits above depth `d`, so any two keys differ within their first `d - 1` path
/// bits, and a non-empty tree has room for the root's children.
pub open spec fn fits(m: Map<Value, Value>, lvl: nat, d: nat) -> bool {
    &&& m.dom().finite()
    &&& (lvl == 0 && m.dom().len() > 0 ==> d >= 2)
    &&& forall|a: Value, b: Value|
        m.contains_key(a) && m.contains_key(b) && a != b ==> !agree(a, b, d - 1)
}

/// All keys of `m` share their first `lvl` path bits with `k`.
pub open spec fn prefixed(m: Map<Value, Value>, k: Value, lvl: nat) -> bool {
    forall|x: Value| m.contains_key(x) ==> agree(x, k, lvl as int)
}

proof fn lemma_single(m: Map<Value, Value>, k: Value)
    requires
        m.dom().finite(),
        m.dom().len() == 1,
        m.contains_key(k),
    ensures
        m.dom().choose() == k,
        m == map![k => m[k]],
{
    Set::lemma_is_singleton(m.dom());
    assert(m.dom().contains(m.dom().choose()));
    assert(m =~= map![k => m[k]]);
}

proof fn lemma_two_keys(m: Map<Value, Value>, lvl: nat, d: nat, c: Value)
    requires
        fits(m, lvl, d),
        prefixed(m, c, lvl),
        m.dom().len() >= 2,
    ensures
        lvl + 1 < d,
{
    let a = m.dom().choose();
    assert(m.dom().contains(a));
    let s = m.dom().remove(a);
    assert(s.len() >= 1);
    let b = s.choose();
    assert(s.contains(b));
    assert(!agree(a, b, d - 1));
    let i = choose|i: nat| i < d - 1 && bit(a, i) != bit(b, i);
    assert(agree(a, c, lvl as int) && agree(b, c, lvl as int));
    if i < lvl {
        assert(bit(a, i) == bit(c, i));
    }
}

proof fn lemma_half(m: Map<Value, Value>, lvl: nat, d: nat, b: bool, k: Value)
    requires
        fits(m, lvl, d),
        prefixed(m, k, lvl),
        bit(k, lvl) == b,
    ensures
        fits(half(m, lvl, b), lvl + 1, d),
        fits(half(m, lvl, !b), lvl + 1, d),
        prefixed(half(m, lvl, b), k, lvl + 1),
        half(m, lvl, b).dom().len() <= m.dom().len(),
        forall|x: Value| #[trigger]
            half(m, lvl, b).contains_key(x) ==> m.contains_key(x) && half(m, lvl, b)[x] == m[x],
{
    let h = half(m, lvl, b);
    m.dom().lemma_len_filter(|x: Value| bit(x, lvl) == b);
    m.dom().lemma_len_filter(|x: Value| bit(x, lvl) == !b);
    assert(h.dom() =~= m.dom().filter(|x: Value| bit(x, lvl) == b));
    assert(half(m, lvl, !b).dom() =~= m.dom().filter(|x: Value| bit(x, lvl) == !b));
    assert forall|x: Value| h.contains_key(x) implies agree(x, k, (lvl + 1) as int) by {
        assert(agree(x, k, lvl as int));
    }
}

proof fn lemma_insert_halves(m: Map<Value, Value>, lvl: nat, k: Value, v: Value)
    ensures
        half(m.insert(k, v), lvl, bit(k, lvl)) == half(m, lvl, bit(k, lvl)).insert(k, v),
        half(m.insert(k, v), lvl, !bit(k, lvl)) == half(m, lvl, !bit(k, lvl)),
{
    assert(half(m.insert(k, v), lvl, bit(k, lvl)) =~= half(m, lvl, bit(k, lvl)).insert(k, v));
    assert(half(m.insert(k, v), lvl, !bit(k, lvl)) =~= half(m, lvl, !bit(k, lvl)));
}

proof fn lemma_fits_insert(m: Map<Value, Value>, lvl: nat, d: nat, k: Value, v: Value)
    requires
        fits(m, lvl, d),
        prefixed(m, k, lvl),
        !m.contains_key(k),
        lvl + 1 < d,
    ensures
        fits(m.insert(k, v), lvl, d) <==> fits(
            half(m, lvl, bit(k, lvl)).insert(k, v),
            lvl + 1,
            d,
        ),
{
    let b = bit(k, lvl);
    let mi = m.insert(k, v);
    let hi = half(m, lvl, b).insert(k, v);
    lemma_half(m, lvl, d, b, k);
    lemma_insert_halves(m, lvl, k, v);
    if fits(hi, lvl + 1, d) {
        assert forall|a: Value, c: Value|
            mi.contains_key(a) && mi.contains_key(c) && a != c implies !agree(a, c, d - 1) by {
            if a == k && bit(c, lvl) != b {
                assert(bit(a, lvl) != bit(c, lvl));
            } else if c == k && bit(a, lvl) != b {
                assert(bit(a, lvl) != bit(c, lvl));
            } else if a == k || c == k {
                assert(hi.contains_key(a) && hi.contains_key(c));
            }
        }
    }
    if fits(mi, lvl, d) {
        assert forall|a: Value, c: Value|
            hi.contains_key(a) && hi.contains_key(c) && a != c implies !agree(a, c, d - 1) by {
            assert(mi.contains_key(a) && mi.contains_key(c));
        }
    }
}

/// Adds the entry `(k, v)` below `node`, the canonical tree of `m` at level `lvl`, and returns
/// the canonical tree of `m` with the entry.
fn add_leaf<H: Hasher>(
    node: Node,
    lvl: usize,
    d: usize,
    k: Value,
    v: Value,
    Ghost(m): Ghost<Map<Value, Value>>,
) -> (r: Result<Node, Error>)
    requires
        d <= 256,
        lvl == 0 || lvl < d,
        node == canon::<H>(m, lvl as nat, d as nat),
        fits(m, lvl as nat, d as nat),
        prefixed(m, k, lvl as nat),
    ensures
        m.contains_key(k) ==> r == Err::<Node, Error>(Error::KeyExists),
        !m.contains_key(k) ==> (r.is_ok() <==> fits(m.insert(k, v), lvl as nat, d as nat)),
        !m.contains_key(k) && r.is_err() ==> r == Err::<Node, Error>(Error::MaxDepthReached),
        r matches Ok(n) ==> n == canon::<H>(m.insert(k, v), lvl as nat, d as nat),
    decreases d - lvl,
{
    let ghost mi = m.insert(k, v);
    match node {
        Node::Empty => {
            proof {
                if m.dom().len() != 0 {
                    if m.dom().len() >= 2 {
                        lemma_two_keys(m, lvl as nat, d as nat, k);
                    }
                }
                assert(m.dom() =~= Set::empty()) by {
                    m.dom().lemma_len0_is_empty();
                }
                assert(mi.dom() =~= set![k]);
                lemma_single(mi, k);
            }
            if lvl > 0 {
                let h = hash_leaf::<H>(&k, &v);
                Ok(Node::Leaf(k, v, h))
            } else {
                if d < 2 {
                    return Err(Error::MaxDepthReached);
                }
                let leaf = Node::Leaf(k, v, hash_leaf::<H>(&k, &v));
                let b = key_bit(&k, 0);
                proof {
                    lemma_insert_halves(m, 0, k, v);
                    let hb = half(m, 0, b);
                    assert(hb.dom() =~= Set::empty());
                    assert(hb.insert(k, v).dom() =~= set![k]);
                    lemma_single(hb.insert(k, v), k);
                    assert(half(m, 0, !b).dom() =~= Set::empty());
                    assert(canon::<H>(half(mi, 0, b), 1, d as nat) == leaf);
                    assert(canon::<H>(half(mi, 0, !b), 1, d as nat) == Node::Empty);
                }
                let (l, r) = if b {
                    (Node::Empty, leaf)
                } else {
                    (leaf, Node::Empty)
                };
                let h = hash_nodes::<H>(&l.hash(), &r.hash());
                Ok(Node::Intermediate(Box::new(l), Box::new(r), h))
            }
        },
        Node::Leaf(k2, v2, _) => {
            proof {
                if m.dom().len() >= 2 {
                    lemma_two_keys(m, lvl as nat, d as nat, k);
                }
                lemma_single(m, k2);
            }
            if k2 == k {
                return Err(Error::KeyExists);
            }
            proof {
                assert(mi =~= map![k2 => v2, k => v]);
                assert(agree(k2, k, lvl as int));
            }
            down_till_divergence::<H>(lvl, d, k2, v2, k, v)
        },
        Node::Intermediate(l, r, _) => {
            if lvl + 1 >= d {
                return Err(Error::MaxDepthReached);
            }
            let b = key_bit(&k, lvl);
            let ghost mb = half(m, lvl as nat, b);
            proof {
                lemma_half(m, lvl as nat, d as nat, b, k);
                lemma_insert_halves(m, lvl as nat, k, v);
                if !m.contains_key(k) {
                    lemma_fits_insert(m, lvl as nat, d as nat, k, v);
                    assert(mi.dom().len() == m.dom().len() + 1);
                } else {
                    assert(mb.contains_key(k));
                }
            }
            proof {
                assert(canon::<H>(half(m, lvl as nat, !b), (lvl + 1) as nat, d as nat) == if b {
                    *l
                } else {
                    *r
                });
                assert(canon::<H>(mb, (lvl + 1) as nat, d as nat) == if b {
                    *r
                } else {
                    *l
                });
            }
            if b {
                let nr = match add_leaf::<H>(*r, lvl + 1, d, k, v, Ghost(mb)) {
                    Ok(n) => n,
                    Err(e) => return Err(e),
                };
                let h = hash_nodes::<H>(&l.hash(), &nr.hash());
                Ok(Node::Intermediate(l, Box::new(nr), h))
            } else {
                let nl = match add_leaf::<H>(*l, lvl + 1, d, k, v, Ghost(mb)) {
                    Ok(n) => n,
                    Err(e) => return Err(e),
                };
                let h = hash_nodes::<H>(&nl.hash(), &r.hash());
                Ok(Node::Intermediate(Box::new(nl), r, h))
            }
        },
    }
}

/// Pushes two leaves whose keys share their first `lvl` path bits down together until their
/// paths diverge, and returns the subtree at level `lvl` that holds both.
fn down_till_divergence<H: Hasher>(
    lvl: usize,
    d: usize,
    k1: Value,
    v1: Value,
    k2: Value,
    v2: Value,
) -> (r: Result<Node, Error>)
    requires
        d <= 256,
        0 < lvl < d,
        k1 != k2,
        agree(k1, k2, lvl as int),
    ensures
        r.is_ok() <==> fits(map![k1 => v1, k2 => v2], lvl as nat, d as nat),
        r.is_err() ==> r == Err::<Node, Error>(Error::MaxDepthReached),
        r matches Ok(n) ==> n == canon::<H>(map![k1 => v1, k2 => v2], lvl as nat, d as nat),
    decreases d - lvl,
{
    let ghost m = map![k1 => v1, k2 => v2];
    proof {
        assert(m.dom() =~= set![k1, k2]);
        assert(m.dom().len() == 2);
    }
    if lvl + 1 >= d {
        proof {
            assert(agree(k1, k2, d - 1));
            assert(m.contains_key(k1) && m.contains_key(k2));
        }
        return Err(Error::MaxDepthReached);
    }
    let b1 = key_bit(&k1, lvl);
    let b2 = key_bit(&k2, lvl);
    if b1 != b2 {
        proof {
            assert(!agree(k1, k2, d - 1));
            let h1 = half(m, lvl as nat, b1);
            let h2 = half(m, lvl as nat, b2);
            assert(h1 =~= map![k1 => v1]);
            assert(h2 =~= map![k2 => v2]);
            assert(h1.dom() =~= set![k1]);
            assert(h2.dom() =~= set![k2]);
            lemma_single(h1, k1);
            lemma_single(h2, k2);
            assert(canon::<H>(h1, (lvl + 1) as nat, d as nat) == Node::Leaf(
                k1,
                v1,
                leaf_hash::<H>(k1, v1),
            ));
            assert(canon::<H>(h2, (lvl + 1) as nat, d as nat) == Node::Leaf(
                k2,
                v2,
                leaf_hash::<H>(k2, v2),
            ));
        }
        let old_leaf = Node::Leaf(k1, v1, hash_leaf::<H>(&k1, &v1));
        let new_leaf = Node::Leaf(k2, v2, hash_leaf::<H>(&k2, &v2));
        let (l, r) = if b2 {
            (old_leaf, new_leaf)
        } else {
            (new_leaf, old_leaf)
        };
        let h = hash_nodes::<H>(&l.hash(), &r.hash());
        Ok(Node::Intermediate(Box::new(l), Box::new(r), h))
    } else {
        proof {
            assert(half(m, lvl as nat, b2) =~= m);
            assert(half(m, lvl as nat, !b2).dom() =~= Set::empty());
            assert(agree(k1, k2, lvl + 1));
        }
        let child = match down_till_divergence::<H>(lvl + 1, d, k1, v1, k2, v2) {
            Ok(n) => n,
            Err(e) => return Err(e),
        };
        proof {
            assert(canon::<H>(half(m, lvl as nat, !b2), (lvl + 1) as nat, d as nat) == Node::Empty);
            assert(canon::<H>(half(m, lvl as nat, b2), (lvl + 1) as nat, d as nat) == child);
        }
        let (l, r) = if b2 {
            (Node::Empty, child)
        } else {
            (child, Node::Empty)
        };
        let h = hash_nodes::<H>(&l.hash(), &r.hash());
        Ok(Node::Intermediate(Box::new(l), Box::new(r), h))
    }
}

/// The map of a list of entries: later entries are added after earlier ones.
pub open spec fn entries(s: Seq<(Value, Value)>) -> Map<Value, Value>
    decreases s.len(),
{
    if s.len() == 0 {
        Map::empty()
    } else {
        entries(s.drop_last()).insert(s.last().0, s.last().1)
    }
}

/// No key occurs twice in a list of entries.
pub open spec fn distinct_keys(s: Seq<(Value, Value)>) -> bool {
    forall|i: int, j: int| 0 <= i < j < s.len() ==> s[i].0 != s[j].0
}

pub proof fn lemma_entries(s: Seq<(Value, Value)>)
    ensures
        entries(s).dom().finite(),
        forall|k: Value| #[trigger]
            entries(s).contains_key(k) <==> exists|j: int| 0 <= j < s.len() && s[j].0 == k,
        distinct_keys(s) ==> forall|j: int|
            0 <= j < s.len() ==> #[trigger] entries(s)[s[j].0] == s[j].1,
    decreases s.len(),
{
    if s.len() > 0 {
        let t = s.drop_last();
        lemma_entries(t);
        assert forall|k: Value| #[trigger]
            entries(s).contains_key(k) <==> exists|j: int| 0 <= j < s.len() && s[j].0 == k by {
            if entries(t).contains_key(k) {
                let j = choose|j: int| 0 <= j < t.len() && t[j].0 == k;
                assert(s[j].0 == k);
            }
            if exists|j: int| 0 <= j < s.len() && s[j].0 == k {
                let j = choose|j: int| 0 <= j < s.len() && s[j].0 == k;
                if j < t.len() {
                    assert(t[j].0 == k);
                }
            }
        }
        if distinct_keys(s) {
            assert forall|j: int| 0 <= j < s.len() implies #[trigger] entries(s)[s[j].0] == s[j].1 by {
                if j < t.len() {
                    assert(t[j] == s[j]);
                    assert(s[j].0 != s.last().0);
                }
            }
        }
    }
}

/// `fits` holds of every map with fewer keys.
proof fn lemma_fits_sub(m1: Map<Value, Value>, m2: Map<Value, Value>, d: nat)
    requires
        fits(m2, 0, d),
        m1.dom().subset_of(m2.dom()),
    ensures
        fits(m1, 0, d),
{
    vstd::set_lib::lemma_len_subset(m1.dom(), m2.dom());
    if m1.dom().len() > 0 {
        let a = m1.dom().choose();
        assert(m2.dom().contains(a));
    }
    assert forall|a: Value, b: Value|
        m1.contains_key(a) && m1.contains_key(b) && a != b implies !agree(a, b, d - 1) by {
        assert(m2.contains_key(a) && m2.contains_key(b));
    }
}

/// Whether every intermediate of a subtree rooted at level `lvl` has its children above
/// depth `d`.
pub open spec fn bounded(n: Node, lvl: nat, d: nat) -> bool
    decreases n,
{
    match n {
        Node::Intermediate(l, r, _) => lvl + 1 < d && bounded(*l, lvl + 1, d) && bounded(
            *r,
            lvl + 1,
            d,
        ),
        _ => true,
    }
}

/// The hashes of the siblings met while descending along `k`'s path from a node at level
/// `lvl`, from the top down.
pub open spec fn siblings_along(n: Node, k: Value, lvl: nat) -> Seq<crate::value::Hash>
    decreases n,
{
    match n {
        Node::Intermediate(l, r, _) => if bit(k, lvl) {
            seq![l.spec_hash()] + siblings_along(*r, k, lvl + 1)
        } else {
            seq![r.spec_hash()] + siblings_along(*l, k, lvl + 1)
        },
        _ => seq![],
    }
}

/// The node where the descent along `k`'s path ends: an empty node or a leaf.
pub open spec fn terminal(n: Node, k: Value, lvl: nat) -> Node
    decreases n,
{
    match n {
        Node::Intermediate(l, r, _) => if bit(k, lvl) {
            terminal(*r, k, lvl + 1)
        } else {
            terminal(*l, k, lvl + 1)
        },
        _ => n,
    }
}

pub open spec fn leaf_of(n: Node) -> Option<(Value, Value)> {
    match n {
        Node::Leaf(k, v, _) => Some((k, v)),
        _ => None,
    }
}

/// One step up a path: the hash of a node from its child's hash `h`, the sibling's hash and
/// the path bit that says on which side the child is.
pub open spec fn climb<H: Hasher>(
    h: crate::value::Hash,
    sibling: crate::value::Hash,
    right: bool,
) -> crate::value::Hash {
    if right {
        node_hash::<H>(sibling, h)
    } else {
        node_hash::<H>(h, sibling)
    }
}

/// The hash recomputed from a node at level `base + sibs.len()` with hash `h` up to level
/// `base`, combining with the siblings from the last one to the first.
pub open spec fn fold_path<H: Hasher>(
    h: crate::value::Hash,
    sibs: Seq<crate::value::Hash>,
    k: Value,
    base: nat,
) -> crate::value::Hash
    decreases sibs.len(),
{
    if sibs.len() == 0 {
        h
    } else {
        let i = (sibs.len() - 1) as nat;
        fold_path::<H>(climb::<H>(h, sibs[i as int], bit(k, base + i)), sibs.drop_last(), k, base)
    }
}

proof fn lemma_fold_prepend<H: Hasher>(
    h: crate::value::Hash,
    x: crate::value::Hash,
    rest: Seq<crate::value::Hash>,
    k: Value,
    base: nat,
)
    ensures
        fold_path::<H>(h, seq![x] + rest, k, base) == climb::<H>(
            fold_path::<H>(h, rest, k, base + 1),
            x,
            bit(k, base),
        ),
    decreases rest.len(),
{
    let s = seq![x] + rest;
    if rest.len() > 0 {
        let i = rest.len() as nat;
        let h2 = climb::<H>(h, rest[i - 1], bit(k, base + i));
        assert(s[i as int] == rest[i - 1]);
        assert(s.drop_last() =~= seq![x] + rest.drop_last());
        lemma_fold_prepend::<H>(h2, x, rest.drop_last(), k, base);
        assert(base + 1 + (i - 1) == base + i);
        assert(fold_path::<H>(h, s, k, base) == fold_path::<H>(h2, s.drop_last(), k, base));
        assert(fold_path::<H>(h, rest, k, base + 1) == fold_path::<H>(
            h2,
            rest.drop_last(),
            k,
            base + 1,
        ));
    } else {
        assert(s.drop_last() =~= Seq::<crate::value::Hash>::empty());
        assert(s[0] == x);
        assert(fold_path::<H>(h, s, k, base) == fold_path::<H>(
            climb::<H>(h, x, bit(k, base)),
            s.drop_last(),
            k,
            base,
        ));
    }
}

proof fn lemma_canon_bounded<H: Hasher>(m: Map<Value, Value>, lvl: nat, d: nat)
    ensures
        bounded(canon::<H>(m, lvl, d), lvl, d),
    decreases d - lvl,
{
    if m.dom().len() != 0 && !(m.dom().len() == 1 && lvl > 0) && lvl + 1 < d {
        lemma_canon_bounded::<H>(half(m, lvl, false), lvl + 1, d);
        lemma_canon_bounded::<H>(half(m, lvl, true), lvl + 1, d);
    }
}

/// What the descent along `k`'s path finds in the canonical tree of `m`: the hash
/// recomputed from the end of the path is the node's hash, the path stays above depth `d`,
/// and it ends at the leaf of `k` exactly when `k` is a key of `m`.
proof fn lemma_descend<H: Hasher>(m: Map<Value, Value>, lvl: nat, d: nat, k: Value)
    requires
        fits(m, lvl, d),
        prefixed(m, k, lvl),
        lvl == 0 || lvl < d,
    ensures
        ({
            let n = canon::<H>(m, lvl, d);
            let t = terminal(n, k, lvl);
            let s = siblings_along(n, k, lvl);
            &&& n.spec_hash() == fold_path::<H>(t.spec_hash(), s, k, lvl)
            &&& s.len() == 0 || lvl + s.len() < d
            &&& t is Empty ==> !m.contains_key(k)
            &&& (t matches Node::Leaf(k2, v2, h) ==> m.contains_key(k2) && m[k2] == v2 && h
                == leaf_hash::<H>(k2, v2) && agree(k2, k, (lvl + s.len()) as int))
            &&& m.contains_key(k) ==> (t matches Node::Leaf(k2, _, _) && k2 == k)
            &&& !(t is Intermediate)
        }),
    decreases d - lvl,
{
    let n = canon::<H>(m, lvl, d);
    if m.dom().len() == 0 {
        assert(!m.contains_key(k));
    } else if m.dom().len() == 1 && lvl > 0 {
        let c = m.dom().choose();
        assert(m.dom().contains(c));
        if m.contains_key(k) {
            lemma_single(m, k);
        }
        assert(agree(c, k, lvl as int));
    } else if lvl + 1 < d {
        let b = bit(k, lvl);
        let mb = half(m, lvl, b);
        lemma_half(m, lvl, d, b, k);
        lemma_descend::<H>(mb, lvl + 1, d, k);
        let child = canon::<H>(mb, lvl + 1, d);
        let other = canon::<H>(half(m, lvl, !b), lvl + 1, d);
        let sc = siblings_along(child, k, lvl + 1);
        let t = terminal(child, k, lvl + 1);
        assert(n == Node::Intermediate(
            Box::new(canon::<H>(half(m, lvl, false), lvl + 1, d)),
            Box::new(canon::<H>(half(m, lvl, true), lvl + 1, d)),
            node_hash::<H>(
                canon::<H>(half(m, lvl, false), lvl + 1, d).spec_hash(),
                canon::<H>(half(m, lvl, true), lvl + 1, d).spec_hash(),
            ),
        ));
        assert(siblings_along(n, k, lvl) == seq![other.spec_hash()] + sc);
        assert(terminal(n, k, lvl) == t);
        lemma_fold_prepend::<H>(t.spec_hash(), other.spec_hash(), sc, k, lvl);
        if m.contains_key(k) {
            assert(mb.contains_key(k));
        }
    } else {
        if m.dom().len() >= 2 {
            lemma_two_keys(m, lvl, d, k);
        }
    }
}

/// Descends along `key`'s path; returns the leaf where the path ends, if it ends at a leaf,
/// and the siblings' hashes from the top down.
fn descend(node: &Node, lvl: usize, d: usize, key: &Value) -> (r: (
    Option<(Value, Value)>,
    Vec<crate::value::Hash>,
))
    requires
        bounded(*node, lvl as nat, d as nat),
        d <= 256,
    ensures
        r.0 == leaf_of(terminal(*node, *key, lvl as nat)),
        r.1@ == siblings_along(*node, *key, lvl as nat),
    decreases *node,
{
    match node {
        Node::Intermediate(l, r, _) => {
            if key_bit(key, lvl) {
                let (t, mut s) = descend(r, lvl + 1, d, key);
                let mut res = vec![l.hash()];
                res.append(&mut s);
                (t, res)
            } else {
                let (t, mut s) = descend(l, lvl + 1, d, key);
                let mut res = vec![r.hash()];
                res.append(&mut s);
                (t, res)
            }
        },
        Node::Leaf(k, v, _) => (Some((*k, *v)), Vec::new()),
        Node::Empty => (None, Vec::new()),
    }
}

/// A proof about one key: the siblings' hashes along its path from the top down and, for a
/// proof of non-existence that ends at another key's leaf, that leaf's entry.
#[derive(Clone, Debug)]
pub struct MerkleProof {
    pub existence: bool,
    pub siblings: Vec<crate::value::Hash>,
    pub other_leaf: Option<(Value, Value)>,
}

/// What verifying an existence proof of `(k, v)` against `root` gives.
pub open spec fn existence_outcome<H: Hasher>(
    d: nat,
    root: crate::value::Hash,
    sibs: Seq<crate::value::Hash>,
    k: Value,
    v: Value,
) -> Result<(), Error> {
    if sibs.len() >= d {
        Err(Error::MaxDepthReached)
    } else if fold_path::<H>(leaf_hash::<H>(k, v), sibs, k, 0) == root {
        Ok(())
    } else {
        Err(Error::ProofDoesNotVerify)
    }
}

/// What verifying a non-existence proof of `k` against `root` gives: the path, at most
/// `d` levels long, ends either at an empty node or at the leaf of another key with the same
/// path prefix.
pub open spec fn nonexistence_outcome<H: Hasher>(
    d: nat,
    root: crate::value::Hash,
    sibs: Seq<crate::value::Hash>,
    other: Option<(Value, Value)>,
    k: Value,
) -> Result<(), Error> {
    if sibs.len() > d {
        Err(Error::MaxDepthReached)
    } else {
        match other {
            None => if fold_path::<H>(null_hash(), sibs, k, 0) == root {
                Ok(())
            } else {
                Err(Error::ProofDoesNotVerify)
            },
            Some((k2, v2)) => if k2 != k && agree(k2, k, sibs.len() as int) && fold_path::<H>(
                leaf_hash::<H>(k2, v2),
                sibs,
                k,
                0,
            ) == root {
                Ok(())
            } else {
                Err(Error::ProofDoesNotVerify)
            },
        }
    }
}

/// A sparse binary Merkle tree of bounded depth over values, hashed with `H`.
pub struct MerkleTree<H> {
    pub max_depth: usize,
    pub root: Node,
    pub kvs: Ghost<Map<Value, Value>>,
    pub hasher: core::marker::PhantomData<H>,
}

impl<H: Hasher> View for MerkleTree<H> {
    type V = Map<Value, Value>;

    /// The entries the tree holds.
    open spec fn view(&self) -> Map<Value, Value> {
        self.kvs@
    }
}

impl<H: Hasher> MerkleTree<H> {
    /// The tree is the canonical tree of its entries, which fit its depth.
    pub open spec fn wf(&self) -> bool {
        &&& self.max_depth <= 256
        &&& fits(self@, 0, self.max_depth as nat)
        &&& self.root == canon::<H>(self@, 0, self.max_depth as nat)
    }

    pub open spec fn spec_root(&self) -> crate::value::Hash {
        self.root.spec_hash()
    }

    /// Builds the tree that holds the given entries. Fails with `KeyExists` on a repeated key
    /// and with `MaxDepthReached` where two keys share their first `max_depth - 1` path bits
    /// (or a non-empty tree has depth below 2).
    pub fn new(max_depth: usize, kvs: &Vec<(Value, Value)>) -> (r: Result<Self, Error>)
        requires
            max_depth <= 256,
        ensures
            r.is_ok() <==> distinct_keys(kvs@) && fits(entries(kvs@), 0, max_depth as nat),
            r matches Ok(t) ==> t.wf() && t@ == entries(kvs@) && t.max_depth == max_depth,
            r matches Err(e) ==> e == Error::KeyExists || e == Error::MaxDepthReached,
            r == Err::<Self, Error>(Error::KeyExists) ==> !distinct_keys(kvs@),
    {
        let d = max_depth;
        let mut root = Node::Empty;
        let ghost mut m: Map<Value, Value> = Map::empty();
        proof {
            assert(kvs@.take(0) =~= Seq::<(Value, Value)>::empty());
            assert(m.dom() =~= Set::empty());
        }
        let mut i: usize = 0;
        while i < kvs.len()
            invariant
                d == max_depth,
                d <= 256,
                i <= kvs@.len(),
                m == entries(kvs@.take(i as int)),
                root == canon::<H>(m, 0, d as nat),
                fits(m, 0, d as nat),
                distinct_keys(kvs@.take(i as int)),
            decreases kvs.len() - i,
        {
            let (k, v) = kvs[i];
            let ghost m0 = m;
            proof {
                lemma_entries(kvs@.take(i as int));
                lemma_entries(kvs@);
                assert(kvs@.take(i as int + 1).drop_last() =~= kvs@.take(i as int));
            }
            root = match add_leaf::<H>(root, 0, d, k, v, Ghost(m)) {
                Ok(n) => n,
                Err(e) => {
                    proof {
                        if m.contains_key(k) {
                            let j = choose|j: int| 0 <= j < i && kvs@.take(i as int)[j].0 == k;
                            assert(kvs@.take(i as int)[j] == kvs@[j]);
                            assert(kvs@[j].0 == kvs@[i as int].0);
                            assert(!distinct_keys(kvs@));
                        } else {
                            assert(m.insert(k, v).dom().subset_of(entries(kvs@).dom())) by {
                                assert forall|x: Value| m.insert(k, v).contains_key(x) implies
                                    entries(kvs@).contains_key(x) by {
                                    if x != k {
                                        assert(m.contains_key(x));
                                        let j = choose|j: int|
                                            0 <= j < i && kvs@.take(i as int)[j].0 == x;
                                        assert(kvs@.take(i as int)[j] == kvs@[j]);
                                        assert(kvs@[j].0 == x);
                                    } else {
                                        assert(kvs@[i as int].0 == x);
                                    }
                                }
                            }
                            assert(!fits(m.insert(k, v), 0, d as nat));
                            if fits(entries(kvs@), 0, d as nat) {
                                lemma_fits_sub(m.insert(k, v), entries(kvs@), d as nat);
                            }
                            assert(!fits(entries(kvs@), 0, d as nat));
                        }
                    }
                    return Err(e);
                },
            };
            proof {
                m = m.insert(k, v);
                let t1 = kvs@.take(i + 1);
                assert forall|a: int, b: int| #![trigger t1[a], t1[b]] 0 <= a < b < i + 1 implies t1[a].0
                    != t1[b].0 by {
                    if b == i {
                        assert(kvs@.take(i as int)[a] == kvs@[a]);
                        assert(m0.contains_key(kvs@[a].0));
                        assert(!m0.contains_key(k));
                    } else {
                        assert(kvs@.take(i as int)[a] == kvs@[a]);
                        assert(kvs@.take(i as int)[b] == kvs@[b]);
                    }
                }
            }
            i = i + 1;
        }
        proof {
            assert(kvs@.take(kvs@.len() as int) =~= kvs@);
        }
        Ok(MerkleTree { max_depth: d, root, kvs: Ghost(m), hasher: core::marker::PhantomData })
    }

    /// The root hash, the tree's commitment.
    pub fn root(&self) -> (r: crate::value::Hash)
        ensures
            r == self.spec_root(),
    {
        self.root.hash()
    }

    /// The value stored under `key`.
    pub fn get(&self, key: &Value) -> (r: Result<Value, Error>)
        requires
            self.wf(),
        ensures
            self@.contains_key(*key) ==> r == Ok::<Value, Error>(self@[*key]),
            !self@.contains_key(*key) ==> r == Err::<Value, Error>(Error::KeyNotFound),
    {
        proof {
            lemma_canon_bounded::<H>(self@, 0, self.max_depth as nat);
            lemma_descend::<H>(self@, 0, self.max_depth as nat, *key);
        }
        let (t, _) = descend(&self.root, 0, self.max_depth, key);
        match t {
            Some((k, v)) => if k == *key {
                Ok(v)
            } else {
                Err(Error::KeyNotFound)
            },
            None => Err(Error::KeyNotFound),
        }
    }

    /// Whether `key` is in the tree.
    pub fn contains(&self, key: &Value) -> (r: bool)
        requires
            self.wf(),
        ensures
            r == self@.contains_key(*key),
    {
        self.get(key).is_ok()
    }

    /// The value stored under `key` with a proof of its existence, which verifies against the
    /// tree's root.
    pub fn prove(&self, key: &Value) -> (r: Result<(Value, MerkleProof), Error>)
        requires
            self.wf(),
        ensures
            !self@.contains_key(*key) ==> r == Err::<(Value, MerkleProof), Error>(
                Error::KeyNotFound,
            ),
            self@.contains_key(*key) ==> (r matches Ok((v, p)) && v == self@[*key] && p.existence
                && p.siblings@ == siblings_along(self.root, *key, 0) && existence_outcome::<H>(
                self.max_depth as nat,
                self.spec_root(),
                p.siblings@,
                *key,
                v,
            ) == Ok::<(), Error>(())),
    {
        proof {
            lemma_canon_bounded::<H>(self@, 0, self.max_depth as nat);
            lemma_descend::<H>(self@, 0, self.max_depth as nat, *key);
        }
        let (t, siblings) = descend(&self.root, 0, self.max_depth, key);
        match t {
            Some((k, v)) => if k == *key {
                Ok((v, MerkleProof { existence: true, siblings, other_leaf: None }))
            } else {
                Err(Error::KeyNotFound)
            },
            None => Err(Error::KeyNotFound),
        }
    }

    /// A proof that `key` is not in the tree, which verifies against the tree's root. Fails
    /// with `KeyExists` where the key is present.
    pub fn prove_nonexistence(&self, key: &Value) -> (r: Result<MerkleProof, Error>)
        requires
            self.wf(),
        ensures
            self@.contains_key(*key) ==> r == Err::<MerkleProof, Error>(Error::KeyExists),
            !self@.contains_key(*key) ==> (r matches Ok(p) && !p.existence
                && p.siblings@ == siblings_along(self.root, *key, 0) && p.other_leaf == leaf_of(
                terminal(self.root, *key, 0),
            ) && nonexistence_outcome::<H>(
                self.max_depth as nat,
                self.spec_root(),
                p.siblings@,
                p.other_leaf,
                *key,
            ) == Ok::<(), Error>(())),
    {
        proof {
            lemma_canon_bounded::<H>(self@, 0, self.max_depth as nat);
            lemma_descend::<H>(self@, 0, self.max_depth as nat, *key);
        }
        let (t, siblings) = descend(&self.root, 0, self.max_depth, key);
        match t {
            Some((k, v)) => if k == *key {
                Err(Error::KeyExists)
            } else {
                Ok(MerkleProof { existence: false, siblings, other_leaf: Some((k, v)) })
            },
            None => Ok(MerkleProof { existence: false, siblings, other_leaf: None }),
        }
    }

    /// Verifies a proof that `(key, value)` is in the tree with the given root.
    pub fn verify(max_depth: usize, root: crate::value::Hash, proof: &MerkleProof, key: &Value, value: &Value) -> (r: Result<(), Error>)
        requires
            max_depth <= 256,
        ensures
            r == existence_outcome::<H>(max_depth as nat, root, proof.siblings@, *key, *value),
    {
        if proof.siblings.len() >= max_depth {
            return Err(Error::MaxDepthReached);
        }
        let h = hash_leaf::<H>(key, value);
        let h = recompute_root::<H>(h, &proof.siblings, key);
        if h == root {
            Ok(())
        } else {
            Err(Error::ProofDoesNotVerify)
        }
    }

    /// Verifies a proof that `key` is not in the tree with the given root.
    pub fn verify_nonexistence(max_depth: usize, root: crate::value::Hash, proof: &MerkleProof, key: &Value) -> (r: Result<(), Error>)
        requires
            max_depth <= 256,
        ensures
            r == nonexistence_outcome::<H>(
                max_depth as nat,
                root,
                proof.siblings@,
                proof.other_leaf,
                *key,
            ),
    {
        let n = proof.siblings.len();
        if n > max_depth {
            return Err(Error::MaxDepthReached);
        }
        let start = match proof.other_leaf {
            None => crate::value::Hash::null(),
            Some((k2, v2)) => {
                if k2 == *key || !same_prefix(&k2, key, n) {
                    return Err(Error::ProofDoesNotVerify);
                }
                hash_leaf::<H>(&k2, &v2)
            },
        };
        let h = recompute_root::<H>(start, &proof.siblings, key);
        if h == root {
            Ok(())
        } else {
            Err(Error::ProofDoesNotVerify)
        }
    }
}

/// Whether two keys share their first `n` path bits.
fn same_prefix(a: &Value, b: &Value, n: usize) -> (r: bool)
    requires
        n <= 256,
    ensures
        r == agree(*a, *b, n as int),
{
    let mut i: usize = 0;
    while i < n
        invariant
            i <= n <= 256,
            agree(*a, *b, i as int),
        decreases n - i,
    {
        if key_bit(a, i) != key_bit(b, i) {
            return false;
        }
        i = i + 1;
    }
    true
}

/// Combines a hash with the siblings from the last one to the first, climbing to the root.
fn recompute_root<H: Hasher>(
    start: crate::value::Hash,
    siblings: &Vec<crate::value::Hash>,
    key: &Value,
) -> (r: crate::value::Hash)
    requires
        siblings@.len() <= 256,
    ensures
        r == fold_path::<H>(start, siblings@, *key, 0),
{
    let mut h = start;
    let mut i: usize = siblings.len();
    assert(siblings@.take(siblings@.len() as int) =~= siblings@);
    while i > 0
        invariant
            i <= siblings@.len() <= 256,
            siblings@.take(siblings@.len() as int) == siblings@,
            fold_path::<H>(h, siblings@.take(i as int), *key, 0) == fold_path::<H>(
                start,
                siblings@,
                *key,
                0,
            ),
        decreases i,
    {
        i = i - 1;
        let s = siblings[i];
        proof {
            assert(siblings@.take(i + 1).drop_last() =~= siblings@.take(i as int));
        }
        h = if key_bit(key, i) {
            hash_nodes::<H>(&s, &h)
        } else {
            hash_nodes::<H>(&h, &s)
        };
    }
    proof {
        assert(siblings@.take(0) =~= Seq::<crate::value::Hash>::empty());
    }
    h
}

/// The tree built from a list of entries depends only on the set of entries: two lists with
/// distinct keys and the same entries give the same map, so `new` succeeds on both or on
/// neither, and the trees (hence the roots) are equal.
pub proof fn lemma_build_determinism<H: Hasher>(d: nat, s1: Seq<(Value, Value)>, s2: Seq<(Value, Value)>)
    requires
        distinct_keys(s1),
        distinct_keys(s2),
        forall|p: (Value, Value)| s1.contains(p) <==> s2.contains(p),
    ensures
        entries(s1) == entries(s2),
        fits(entries(s1), 0, d) == fits(entries(s2), 0, d),
        canon::<H>(entries(s1), 0, d) == canon::<H>(entries(s2), 0, d),
{
    lemma_entries(s1);
    lemma_entries(s2);
    assert forall|k: Value| entries(s1).contains_key(k) <==> entries(s2).contains_key(k) by {
        if entries(s1).contains_key(k) {
            let j = choose|j: int| 0 <= j < s1.len() && s1[j].0 == k;
            assert(s1.contains(s1[j]));
            let j2 = choose|j2: int| 0 <= j2 < s2.len() && s2[j2] == s1[j];
            assert(s2[j2].0 == k);
        }
        if entries(s2).contains_key(k) {
            let j = choose|j: int| 0 <= j < s2.len() && s2[j].0 == k;
            assert(s2.contains(s2[j]));
            let j1 = choose|j1: int| 0 <= j1 < s1.len() && s1[j1] == s2[j];
            assert(s1[j1].0 == k);
        }
    }
    assert forall|k: Value| entries(s1).contains_key(k) implies entries(s1)[k] == entries(s2)[k] by {
        let j = choose|j: int| 0 <= j < s1.len() && s1[j].0 == k;
        assert(s1.contains(s1[j]));
        let j2 = choose|j2: int| 0 <= j2 < s2.len() && s2[j2] == s1[j];
        assert(entries(s2)[s2[j2].0] == s2[j2].1);
    }
    assert(entries(s1) =~= entries(s2));
}

/// A proof of existence produced for a key of the tree verifies against the tree's root
/// with the key's value.
pub proof fn lemma_existence_round_trip<H: Hasher>(t: MerkleTree<H>, k: Value)
    requires
        t.wf(),
        t@.contains_key(k),
    ensures
        existence_outcome::<H>(
            t.max_depth as nat,
            t.spec_root(),
            siblings_along(t.root, k, 0),
            k,
            t@[k],
        ) == Ok::<(), Error>(()),
{
    lemma_descend::<H>(t@, 0, t.max_depth as nat, k);
}

/// A proof of non-existence produced for a key outside the tree verifies against the tree's
/// root.
pub proof fn lemma_nonexistence_round_trip<H: Hasher>(t: MerkleTree<H>, k: Value)
    requires
        t.wf(),
        !t@.contains_key(k),
    ensures
        nonexistence_outcome::<H>(
            t.max_depth as nat,
            t.spec_root(),
            siblings_along(t.root, k, 0),
            leaf_of(terminal(t.root, k, 0)),
            k,
        ) == Ok::<(), Error>(()),
{
    lemma_descend::<H>(t@, 0, t.max_depth as nat, k);
}

/// The hash never maps two different eight-element inputs to the same digest.
pub open spec fn collision_free<H: Hasher>() -> bool {
    forall|a: Seq<u64>, b: Seq<u64>|
        a.len() == 8 && b.len() == 8 && #[trigger] hash_of_limbs(H::spec_hash(a))
            == #[trigger] hash_of_limbs(H::spec_hash(b)) ==> a == b
}

proof fn lemma_node_hash_injective<H: Hasher>(
    a: crate::value::Hash,
    b: crate::value::Hash,
    c: crate::value::Hash,
    e: crate::value::Hash,
)
    requires
        collision_free::<H>(),
        node_hash::<H>(a, b) == node_hash::<H>(c, e),
    ensures
        a == c && b == e,
{
    let x = a.limbs() + b.limbs();
    let y = c.limbs() + e.limbs();
    assert(x.len() == 8 && y.len() == 8);
    assert(x == y);
    assert(x[0] == y[0] && x[1] == y[1] && x[2] == y[2] && x[3] == y[3]);
    assert(x[4] == y[4] && x[5] == y[5] && x[6] == y[6] && x[7] == y[7]);
}

proof fn lemma_fold_injective<H: Hasher>(
    h1: crate::value::Hash,
    s1: Seq<crate::value::Hash>,
    h2: crate::value::Hash,
    s2: Seq<crate::value::Hash>,
    k: Value,
)
    requires
        collision_free::<H>(),
        s1.len() == s2.len(),
        fold_path::<H>(h1, s1, k, 0) == fold_path::<H>(h2, s2, k, 0),
    ensures
        h1 == h2,
        s1 == s2,
    decreases s1.len(),
{
    if s1.len() > 0 {
        let i = (s1.len() - 1) as nat;
        let b = bit(k, i);
        let c1 = climb::<H>(h1, s1[i as int], b);
        let c2 = climb::<H>(h2, s2[i as int], b);
        lemma_fold_injective::<H>(c1, s1.drop_last(), c2, s2.drop_last(), k);
        if b {
            lemma_node_hash_injective::<H>(s1[i as int], h1, s2[i as int], h2);
        } else {
            lemma_node_hash_injective::<H>(h1, s1[i as int], h2, s2[i as int]);
        }
        assert(s1 =~= s2.drop_last().push(s2[i as int]));
        assert(s2 =~= s2.drop_last().push(s2[i as int]));
    } else {
        assert(s1 =~= s2);
    }
}

/// Soundness of existence proofs for a collision-free hash: a proof that verifies for
/// `(k, v)` does not verify for another value, nor with any sibling changed.
pub proof fn lemma_existence_sound<H: Hasher>(
    d: nat,
    root: crate::value::Hash,
    sibs: Seq<crate::value::Hash>,
    sibs2: Seq<crate::value::Hash>,
    k: Value,
    v: Value,
    v2: Value,
)
    requires
        collision_free::<H>(),
        existence_outcome::<H>(d, root, sibs, k, v) == Ok::<(), Error>(()),
        sibs2.len() == sibs.len(),
        sibs2 != sibs || v2 != v,
    ensures
        existence_outcome::<H>(d, root, sibs2, k, v2) != Ok::<(), Error>(()),
{
    if existence_outcome::<H>(d, root, sibs2, k, v2) == Ok::<(), Error>(()) {
        lemma_fold_injective::<H>(leaf_hash::<H>(k, v), sibs, leaf_hash::<H>(k, v2), sibs2, k);
        let x = k.limbs() + v.limbs();
        let y = k.limbs() + v2.limbs();
        assert(x.len() == 8 && y.len() == 8);
        assert(x == y);
        assert(x[4] == y[4] && x[5] == y[5] && x[6] == y[6] && x[7] == y[7]);
    }
}

/// The entries of the leaves of a subtree, left to right.
pub open spec fn leaves(n: Node) -> Seq<(Value, Value)>
    decreases n,
{
    match n {
        Node::Empty => seq![],
        Node::Leaf(k, v, _) => seq![(k, v)],
        Node::Intermediate(l, r, _) => leaves(*l) + leaves(*r),
    }
}

proof fn lemma_entries_concat(a: Seq<(Value, Value)>, b: Seq<(Value, Value)>)
    ensures
        entries(a + b) == entries(a).union_prefer_right(entries(b)),
    decreases b.len(),
{
    if b.len() == 0 {
        assert(a + b =~= a);
        assert(entries(a).union_prefer_right(entries(b)) =~= entries(a));
    } else {
        lemma_entries_concat(a, b.drop_last());
        assert((a + b).drop_last() =~= a + b.drop_last());
        assert(entries(a + b) =~= entries(a).union_prefer_right(entries(b)));
    }
}

/// The leaves of the canonical tree of `m` list exactly the entries of `m`, each key once.
proof fn lemma_leaves<H: Hasher>(m: Map<Value, Value>, lvl: nat, d: nat)
    requires
        fits(m, lvl, d),
        lvl == 0 || lvl < d,
        forall|a: Value, b: Value| m.contains_key(a) && m.contains_key(b) ==> agree(a, b, lvl as int),
    ensures
        entries(leaves(canon::<H>(m, lvl, d))) == m,
        distinct_keys(leaves(canon::<H>(m, lvl, d))),
        forall|i: int|
            0 <= i < leaves(canon::<H>(m, lvl, d)).len() ==> m.contains_key(
                #[trigger] leaves(canon::<H>(m, lvl, d))[i].0,
            ),
    decreases d - lvl,
{
    let n = canon::<H>(m, lvl, d);
    if m.dom().len() == 0 {
        m.dom().lemma_len0_is_empty();
        assert(m =~= Map::empty());
        assert(entries(seq![]) =~= Map::<Value, Value>::empty());
    } else if m.dom().len() == 1 && lvl > 0 {
        let c = m.dom().choose();
        assert(m.dom().contains(c));
        lemma_single(m, c);
        let s = seq![(c, m[c])];
        assert(s.drop_last() =~= Seq::<(Value, Value)>::empty());
        assert(s.last() == (c, m[c]));
        assert(entries(s) == entries(Seq::<(Value, Value)>::empty()).insert(c, m[c]));
        assert(entries(s) =~= map![c => m[c]]);
    } else if lvl + 1 < d {
        let c = m.dom().choose();
        assert(m.dom().contains(c));
        let m0 = half(m, lvl, false);
        let m1 = half(m, lvl, true);
        if bit(c, lvl) {
            lemma_half(m, lvl, d, true, c);
        } else {
            lemma_half(m, lvl, d, false, c);
        }
        assert forall|a: Value, b: Value| m0.contains_key(a) && m0.contains_key(b) implies agree(
            a,
            b,
            (lvl + 1) as int,
        ) by {
            assert(agree(a, b, lvl as int));
        }
        assert forall|a: Value, b: Value| m1.contains_key(a) && m1.contains_key(b) implies agree(
            a,
            b,
            (lvl + 1) as int,
        ) by {
            assert(agree(a, b, lvl as int));
        }
        m.dom().lemma_len_filter(|x: Value| bit(x, lvl) == false);
        m.dom().lemma_len_filter(|x: Value| bit(x, lvl) == true);
        assert(m0.dom() =~= m.dom().filter(|x: Value| bit(x, lvl) == false));
        assert(m1.dom() =~= m.dom().filter(|x: Value| bit(x, lvl) == true));
        assert(fits(m0, lvl + 1, d));
        assert(fits(m1, lvl + 1, d));
        lemma_leaves::<H>(m0, lvl + 1, d);
        lemma_leaves::<H>(m1, lvl + 1, d);
        let la = leaves(canon::<H>(m0, lvl + 1, d));
        let lb = leaves(canon::<H>(m1, lvl + 1, d));
        assert(leaves(n) == la + lb);
        lemma_entries_concat(la, lb);
        assert(m0.union_prefer_right(m1) =~= m);
        assert forall|i: int, j: int|
            #![trigger (la + lb)[i], (la + lb)[j]]
            0 <= i < j < (la + lb).len() implies (la + lb)[i].0 != (la + lb)[j].0 by {
            if j < la.len() {
                assert(la[i] == (la + lb)[i] && la[j] == (la + lb)[j]);
            } else if i >= la.len() {
                assert(lb[i - la.len()] == (la + lb)[i] && lb[j - la.len()] == (la + lb)[j]);
            } else {
                assert(la[i] == (la + lb)[i] && lb[j - la.len()] == (la + lb)[j]);
                assert(m0.contains_key(la[i].0));
                assert(m1.contains_key(lb[j - la.len()].0));
            }
        }
        assert forall|i: int| 0 <= i < (la + lb).len() implies m.contains_key(
            #[trigger] (la + lb)[i].0,
        ) by {
            if i < la.len() {
                assert(la[i] == (la + lb)[i]);
                assert(m0.contains_key(la[i].0));
            } else {
                assert(lb[i - la.len()] == (la + lb)[i]);
                assert(m1.contains_key(lb[i - la.len()].0));
            }
        }
    } else {
        if m.dom().len() >= 2 {
            let c = m.dom().choose();
            assert(m.dom().contains(c));
            assert(prefixed(m, c, lvl));
            lemma_two_keys(m, lvl, d, c);
        }
    }
}

/// The entries of the leaves of a subtree, left to right.
fn collect(node: &Node) -> (r: Vec<(Value, Value)>)
    ensures
        r@ == leaves(*node),
    decreases *node,
{
    match node {
        Node::Empty => Vec::new(),
        Node::Leaf(k, v, _) => vec![(*k, *v)],
        Node::Intermediate(l, r, _) => {
            let mut a = collect(l);
            let mut b = collect(r);
            a.append(&mut b);
            a
        },
    }
}

impl<H: Hasher> MerkleTree<H> {
    /// The tree's entries, each key once.
    pub fn iter(&self) -> (r: Vec<(Value, Value)>)
        requires
            self.wf(),
        ensures
            distinct_keys(r@),
            entries(r@) == self@,
    {
        proof {
            lemma_leaves::<H>(self@, 0, self.max_depth as nat);
        }
        collect(&self.root)
    }
}

} // verus!
