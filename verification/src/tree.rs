//! The indexed Merkle tree that mirrors the authoritative account state.
//!
//! The tree has a fixed depth: a leaf slot for every 24-bit account
//! index.  Empty slots hold the all-zero leaf; the hash of an empty
//! subtree at each height is precomputed once, so the root and any
//! authentication path are computed by descending only into occupied
//! subtrees.  The root is a pure function of the map of occupied leaves,
//! stated by `subtree_v`, and every method is verified against it.

use vstd::prelude::*;

use std::collections::HashMap;

verus! {

broadcast use vstd::std_specs::hash::group_hash_axioms;

use vstd::arithmetic::power2::{pow2, lemma_pow2_adds, lemma2_to64};
use vstd::arithmetic::div_mod::lemma_fundamental_div_mod;
use vstd::arithmetic::mul::lemma_mul_inequality;
use crate::bewords::{be_bytes, lemma_be_bytes_canon};
use crate::field::{Fel, fel_v, fel_wf, fel_zero, fel_copy};
use crate::commit::{sha256_of, reduced_v, reduce_hash, extend_bytes, sha256};
use crate::codec::pow2_u64;

/// Depth of the balance tree: leaves sit under 24-bit indices.
pub const TREE_DEPTH: usize = 24;

/// Number of leaf slots.
pub const TREE_CAPACITY: u32 = 0x1000000;

/// One account's state: spendable balance, replay counter and public-key
/// coordinates.
pub struct AccountLeaf {
    pub balance: Fel,
    pub nonce: Fel,
    pub pub_x: Fel,
    pub pub_y: Fel,
}

pub open spec fn leaf_wf(l: AccountLeaf) -> bool {
    &&& fel_wf(l.balance)
    &&& fel_wf(l.nonce)
    &&& fel_wf(l.pub_x)
    &&& fel_wf(l.pub_y)
}

/// The mathematical content of a leaf: its four field values.
pub type LeafVals = (nat, nat, nat, nat);

pub open spec fn leaf_v(l: AccountLeaf) -> LeafVals {
    (fel_v(l.balance), fel_v(l.nonce), fel_v(l.pub_x), fel_v(l.pub_y))
}

pub open spec fn empty_leaf_v() -> LeafVals {
    (0nat, 0nat, 0nat, 0nat)
}

/// The bytes a leaf hashes over: its four values, each 32 bytes
/// big-endian.
pub open spec fn leaf_bytes_v(lv: LeafVals) -> Seq<u8> {
    be_bytes(lv.0, 32) + be_bytes(lv.1, 32) + be_bytes(lv.2, 32) + be_bytes(lv.3, 32)
}

/// The hash of an occupied leaf.
pub open spec fn leaf_hash_v(lv: LeafVals) -> nat {
    reduced_v(sha256_of(leaf_bytes_v(lv)))
}

/// The hash of an inner node over its two children.
pub open spec fn node_hash_v(l: nat, r: nat) -> nat {
    reduced_v(sha256_of(be_bytes(l, 32) + be_bytes(r, 32)))
}

/// The hash of a fully empty subtree of the given height.
pub open spec fn default_hash_v(level: nat) -> nat
    decreases level,
{
    if level == 0 {
        leaf_hash_v(empty_leaf_v())
    } else {
        node_hash_v(default_hash_v((level - 1) as nat), default_hash_v((level - 1) as nat))
    }
}

/// The hash of the subtree of the given height whose leaves are the
/// indices with prefix `pfx`, over the map of occupied leaves.
pub open spec fn subtree_v(m: Map<u32, LeafVals>, level: nat, pfx: nat) -> nat
    decreases level,
{
    if level == 0 {
        if pfx < TREE_CAPACITY && m.contains_key(pfx as u32) {
            leaf_hash_v(m[pfx as u32])
        } else {
            default_hash_v(0)
        }
    } else {
        node_hash_v(
            subtree_v(m, (level - 1) as nat, 2 * pfx),
            subtree_v(m, (level - 1) as nat, 2 * pfx + 1),
        )
    }
}

/// The root of the whole tree over the map of occupied leaves.
pub open spec fn root_v(m: Map<u32, LeafVals>) -> nat {
    subtree_v(m, TREE_DEPTH as nat, 0)
}

/// A subtree with no occupied leaf hashes to the default of its height.
pub proof fn lemma_empty_subtree(m: Map<u32, LeafVals>, level: nat, pfx: nat)
    requires
        forall|k: u32|
            m.contains_key(k) ==> !((pfx * pow2(level)) <= k < ((pfx + 1) * pow2(level))),
    ensures
        subtree_v(m, level, pfx) == default_hash_v(level),
    decreases level,
{
    lemma2_to64();
    if level == 0 {
        assert(pow2(0) == 1);
        if pfx < TREE_CAPACITY && m.contains_key(pfx as u32) {
            assert((pfx as u32) as nat == pfx);
            assert(pfx * 1 <= pfx < (pfx + 1) * 1);
            assert(false);
        }
    } else {
        let lm = (level - 1) as nat;
        assert(pow2(level) == 2 * pow2(lm)) by {
            lemma_pow2_adds(lm, 1);
        }
        assert((2 * pfx) * pow2(lm) == pfx * pow2(level)) by (nonlinear_arith)
            requires
                pow2(level) == 2 * pow2(lm),
        ;
        assert((2 * pfx + 2) * pow2(lm) == (pfx + 1) * pow2(level)) by (nonlinear_arith)
            requires
                pow2(level) == 2 * pow2(lm),
        ;
        assert((2 * pfx) * pow2(lm) <= (2 * pfx + 1) * pow2(lm) <= (2 * pfx + 2) * pow2(lm)) by {
            lemma_mul_inequality(2 * pfx as int, 2 * pfx as int + 1, pow2(lm) as int);
            lemma_mul_inequality(2 * pfx as int + 1, 2 * pfx as int + 2, pow2(lm) as int);
        }
        assert forall|k: u32| m.contains_key(k) implies !(((2 * pfx) * pow2(lm)) <= k < ((2 * pfx
            + 1) * pow2(lm))) by {
            assert(!((pfx * pow2(level)) <= k < ((pfx + 1) * pow2(level))));
        }
        assert forall|k: u32| m.contains_key(k) implies !(((2 * pfx + 1) * pow2(lm)) <= k < ((2
            * pfx + 2) * pow2(lm))) by {
            assert(!((pfx * pow2(level)) <= k < ((pfx + 1) * pow2(level))));
        }
        lemma_empty_subtree(m, lm, 2 * pfx);
        lemma_empty_subtree(m, lm, 2 * pfx + 1);
    }
}

/// A by-value copy of a leaf.
pub fn leaf_copy(l: &AccountLeaf) -> (r: AccountLeaf)
    ensures
        r.balance.b@ == l.balance.b@,
        r.nonce.b@ == l.nonce.b@,
        r.pub_x.b@ == l.pub_x.b@,
        r.pub_y.b@ == l.pub_y.b@,
        leaf_v(r) == leaf_v(*l),
{
    AccountLeaf {
        balance: fel_copy(&l.balance),
        nonce: fel_copy(&l.nonce),
        pub_x: fel_copy(&l.pub_x),
        pub_y: fel_copy(&l.pub_y),
    }
}

/// Hash an occupied leaf.
pub fn leaf_hash(l: &AccountLeaf) -> (r: Fel)
    requires
        leaf_wf(*l),
    ensures
        fel_wf(r),
        fel_v(r) == leaf_hash_v(leaf_v(*l)),
{
    let mut buf: Vec<u8> = Vec::new();
    extend_bytes(&mut buf, &l.balance.b);
    extend_bytes(&mut buf, &l.nonce.b);
    extend_bytes(&mut buf, &l.pub_x.b);
    extend_bytes(&mut buf, &l.pub_y.b);
    proof {
        lemma_be_bytes_canon(l.balance.b@);
        lemma_be_bytes_canon(l.nonce.b@);
        lemma_be_bytes_canon(l.pub_x.b@);
        lemma_be_bytes_canon(l.pub_y.b@);
        assert(buf@ =~= leaf_bytes_v(leaf_v(*l)));
    }
    let h = sha256(&buf);
    reduce_hash(&h)
}

/// Hash an inner node over its two children.
pub fn node_hash(l: &Fel, r: &Fel) -> (res: Fel)
    requires
        fel_wf(*l),
        fel_wf(*r),
    ensures
        fel_wf(res),
        fel_v(res) == node_hash_v(fel_v(*l), fel_v(*r)),
{
    let mut buf: Vec<u8> = Vec::new();
    extend_bytes(&mut buf, &l.b);
    extend_bytes(&mut buf, &r.b);
    proof {
        lemma_be_bytes_canon(l.b@);
        lemma_be_bytes_canon(r.b@);
        assert(buf@ =~= be_bytes(fel_v(*l), 32) + be_bytes(fel_v(*r), 32));
    }
    let h = sha256(&buf);
    reduce_hash(&h)
}

/// The mirrored balance tree: the occupied leaves, the list of occupied
/// indices, and the precomputed empty-subtree hashes per height.
pub struct BalanceTree {
    pub items: HashMap<u32, AccountLeaf>,
    pub keys: Vec<u32>,
    pub defaults: Vec<Fel>,
}

impl BalanceTree {
    /// Every occupied index is listed in `keys`, lies under the tree's
    /// capacity and holds a well-formed leaf, and the default hashes
    /// match their height.
    pub open spec fn wf(&self) -> bool {
        &&& forall|k: u32| #[trigger] self.items@.contains_key(k) ==> self.keys@.contains(k)
        &&& forall|k: u32| #[trigger]
            self.items@.contains_key(k) ==> k < TREE_CAPACITY && leaf_wf(self.items@[k])
        &&& self.defaults@.len() == TREE_DEPTH + 1
        &&& forall|l: int|
            0 <= l <= TREE_DEPTH ==> fel_wf(#[trigger] self.defaults@[l]) && fel_v(
                self.defaults@[l],
            ) == default_hash_v(l as nat)
    }

    /// The map of occupied leaves, by value.
    pub open spec fn model(&self) -> Map<u32, LeafVals> {
        Map::new(|k: u32| self.items@.contains_key(k), |k: u32| leaf_v(self.items@[k]))
    }

    /// A fresh, fully empty tree.
    #[verifier::loop_isolation(false)]
    pub fn new_tree() -> (t: BalanceTree)
        ensures
            t.wf(),
            t.model() =~= Map::<u32, LeafVals>::empty(),
    {
        let zl = AccountLeaf {
            balance: fel_zero(),
            nonce: fel_zero(),
            pub_x: fel_zero(),
            pub_y: fel_zero(),
        };
        let mut defaults: Vec<Fel> = Vec::new();
        let d0 = leaf_hash(&zl);
        defaults.push(d0);
        let mut l: usize = 1;
        while l <= TREE_DEPTH
            invariant
                1 <= l <= TREE_DEPTH + 1,
                defaults@.len() == l,
                forall|j: int|
                    0 <= j < l ==> fel_wf(#[trigger] defaults@[j]) && fel_v(defaults@[j])
                        == default_hash_v(j as nat),
            decreases TREE_DEPTH + 1 - l,
        {
            let d = node_hash(&defaults[l - 1], &defaults[l - 1]);
            defaults.push(d);
            l = l + 1;
        }
        let t = BalanceTree { items: HashMap::new(), keys: Vec::new(), defaults };
        t
    }

    /// Insert or overwrite the leaf at an index.
    pub fn insert(&mut self, key: u32, leaf: AccountLeaf)
        requires
            old(self).wf(),
            key < TREE_CAPACITY,
            leaf_wf(leaf),
        ensures
            final(self).wf(),
            final(self).model() == old(self).model().insert(key, leaf_v(leaf)),
            final(self).defaults@ == old(self).defaults@,
    {
        if !self.items.contains_key(&key) {
            self.keys.push(key);
        }
        self.items.insert(key, leaf);
        proof {
            assert forall|k: u32| #[trigger] self.items@.contains_key(k) implies self.keys@.contains(
                k,
            ) by {
                if k != key {
                    assert(old(self).items@.contains_key(k));
                    let i = choose|i: int|
                        0 <= i < old(self).keys@.len() && old(self).keys@[i] == k;
                    assert(self.keys@[i] == k);
                } else {
                    if old(self).items@.contains_key(key) {
                        let i = choose|i: int|
                            0 <= i < old(self).keys@.len() && old(self).keys@[i] == key;
                        assert(self.keys@[i] == key);
                    } else {
                        assert(self.keys@[self.keys@.len() - 1] == key);
                    }
                }
            }
            assert(self.model() =~= old(self).model().insert(key, leaf_v(leaf)));
        }
    }

    /// The leaf at an index, if the slot is occupied.
    pub fn lookup(&self, key: u32) -> (r: Option<&AccountLeaf>)
        requires
            self.wf(),
        ensures
            match r {
                Some(l) => self.model().contains_key(key) && leaf_v(*l) == self.model()[key]
                    && leaf_wf(*l),
                None => !self.model().contains_key(key),
            },
    {
        self.items.get(&key)
    }

    /// Whether any occupied index lies in `[lo, hi)`; a negative answer
    /// is conclusive.
    #[verifier::loop_isolation(false)]
    pub fn range_has_key(&self, lo: u32, hi: u32) -> (r: bool)
        requires
            self.wf(),
        ensures
            !r ==> forall|k: u32| self.model().contains_key(k) ==> !(lo <= k < hi),
    {
        let n = self.keys.len();
        let mut i: usize = 0;
        while i < n
            invariant
                i <= n,
                n == self.keys@.len(),
                forall|j: int| 0 <= j < i ==> !(lo <= #[trigger] self.keys@[j] < hi),
            decreases n - i,
        {
            if self.keys[i] >= lo && self.keys[i] < hi {
                return true;
            }
            i = i + 1;
        }
        proof {
            assert forall|k: u32| self.model().contains_key(k) implies !(lo <= k < hi) by {
                assert(self.keys@.contains(k));
                let j = choose|j: int| 0 <= j < self.keys@.len() && self.keys@[j] == k;
                assert(!(lo <= self.keys@[j] < hi));
            }
        }
        false
    }

    /// The hash of the subtree of the given height whose leaves carry
    /// prefix `pfx`.
    pub fn subtree_root(&self, level: usize, pfx: u32) -> (r: Fel)
        requires
            self.wf(),
            level <= TREE_DEPTH,
            (pfx as nat) < pow2((TREE_DEPTH - level) as nat),
        ensures
            fel_wf(r),
            fel_v(r) == subtree_v(self.model(), level as nat, pfx as nat),
        decreases level,
    {
        let p: u64 = pow2_u64(level as u64);
        proof {
            lemma2_to64();
            lemma_pow2_adds((TREE_DEPTH - level) as nat, level as nat);
            assert(pow2((TREE_DEPTH - level) as nat) * (p as int) == pow2(TREE_DEPTH as nat));
            assert((pfx as int + 1) * (p as int) <= pow2((TREE_DEPTH - level) as nat) * (
            p as int)) by (nonlinear_arith)
                requires
                    (pfx as int) < pow2((TREE_DEPTH - level) as nat),
                    p as int >= 1,
            ;
            assert((pfx as int) * (p as int) + (p as int) == (pfx as int + 1) * (p as int))
                by (nonlinear_arith);
            assert(pow2(TREE_DEPTH as nat) == TREE_CAPACITY as int);
        }
        let lo64: u64 = (pfx as u64) * p;
        let hi64: u64 = lo64 + p;
        let lo: u32 = lo64 as u32;
        let hi: u32 = hi64 as u32;
        if !self.range_has_key(lo, hi) {
            proof {
                lemma_empty_subtree(self.model(), level as nat, pfx as nat);
            }
            return fel_copy(&self.defaults[level]);
        }
        if level == 0 {
            match self.items.get(&pfx) {
                Some(leaf) => {
                    proof {
                        assert(self.model().contains_key(pfx));
                        assert(self.model()[pfx] == leaf_v(*leaf));
                    }
                    leaf_hash(leaf)
                },
                None => {
                    proof {
                        assert(!self.model().contains_key(pfx));
                    }
                    fel_copy(&self.defaults[0])
                },
            }
        } else {
            proof {
                assert(2 * (pfx as int) + 1 < 2 * pow2((TREE_DEPTH - level) as nat));
                assert(2 * pow2((TREE_DEPTH - level) as nat) == pow2(
                    (TREE_DEPTH - (level - 1)) as nat,
                )) by {
                    lemma_pow2_adds((TREE_DEPTH - level) as nat, 1);
                }
            }
            let left = self.subtree_root(level - 1, pfx * 2);
            let right = self.subtree_root(level - 1, pfx * 2 + 1);
            node_hash(&left, &right)
        }
    }

    /// The root hash over all occupied leaves.
    pub fn root_hash(&self) -> (r: Fel)
        requires
            self.wf(),
        ensures
            fel_wf(r),
            fel_v(r) == root_v(self.model()),
    {
        proof {
            lemma2_to64();
        }
        self.subtree_root(TREE_DEPTH, 0)
    }
}

/// The prefix of an index at a height.
pub open spec fn prefix_at(idx: nat, level: nat) -> nat {
    idx / pow2(level)
}

/// The sibling prefix of an index at a height.
pub open spec fn sibling_at(idx: nat, level: nat) -> nat {
    if prefix_at(idx, level) % 2 == 0 {
        prefix_at(idx, level) + 1
    } else {
        (prefix_at(idx, level) - 1) as nat
    }
}

/// Whether the index sits in the right child at a height.
pub open spec fn dir_at(idx: nat, level: nat) -> bool {
    prefix_at(idx, level) % 2 == 1
}

/// One authentication-path entry: the sibling subtree hash and the
/// direction, as the circuit consumes them.
pub open spec fn path_entry_ok(
    m: Map<u32, LeafVals>,
    idx: nat,
    level: nat,
    e: (Fel, bool),
) -> bool {
    &&& fel_wf(e.0)
    &&& fel_v(e.0) == subtree_v(m, level, sibling_at(idx, level))
    &&& e.1 == dir_at(idx, level)
}

/// A full authentication path from leaf to root over the given state.
pub open spec fn path_ok(p: Seq<(Fel, bool)>, m: Map<u32, LeafVals>, idx: nat) -> bool {
    &&& p.len() == TREE_DEPTH
    &&& forall|l: int| 0 <= l < TREE_DEPTH ==> path_entry_ok(m, idx, l as nat, #[trigger] p[l])
}

impl BalanceTree {
    /// The authentication path of an index over the current state.
    #[verifier::loop_isolation(false)]
    pub fn merkle_path(&self, idx: u32) -> (r: Vec<(Fel, bool)>)
        requires
            self.wf(),
            idx < TREE_CAPACITY,
        ensures
            path_ok(r@, self.model(), idx as nat),
    {
        let mut out: Vec<(Fel, bool)> = Vec::new();
        let mut level: usize = 0;
        proof {
            lemma2_to64();
        }
        while level < TREE_DEPTH
            invariant
                level <= TREE_DEPTH,
                out@.len() == level,
                forall|l: int|
                    0 <= l < level ==> path_entry_ok(self.model(), idx as nat, l as nat, #[trigger] out@[l]),
            decreases TREE_DEPTH - level,
        {
            let p: u64 = pow2_u64(level as u64);
            let c64: u64 = (idx as u64) / p;
            proof {
                lemma_fundamental_div_mod(idx as int, p as int);
                lemma_pow2_adds((TREE_DEPTH - level) as nat, level as nat);
                if c64 as int >= pow2((TREE_DEPTH - level) as nat) {
                    lemma_mul_inequality(
                        pow2((TREE_DEPTH - level) as nat) as int,
                        c64 as int,
                        p as int,
                    );
                    assert(pow2((TREE_DEPTH - level) as nat) * (p as int) == pow2(
                        TREE_DEPTH as nat,
                    ));
                    assert(idx as int >= c64 as int * p as int);
                    assert(false);
                }
                assert(pow2(TREE_DEPTH as nat) == TREE_CAPACITY as int);
            }
            let c: u32 = c64 as u32;
            let s: u32 = if c % 2 == 0 {
                c + 1
            } else {
                c - 1
            };
            proof {
                assert(c as nat == prefix_at(idx as nat, level as nat));
                assert(s as nat == sibling_at(idx as nat, level as nat));
                if c % 2 == 0 {
                    assert(pow2((TREE_DEPTH - level) as nat) % 2 == 0) by {
                        lemma_pow2_adds((TREE_DEPTH - level - 1) as nat, 1);
                    }
                }
            }
            let sib = self.subtree_root(level, s);
            let d: bool = c % 2 == 1;
            out.push((sib, d));
            level = level + 1;
        }
        out
    }
}

} // verus!
