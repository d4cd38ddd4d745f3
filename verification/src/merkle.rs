//! A Merkle hash tree over the registry's digests, keyed by tool name in
//! sorted order, with membership proofs and a stateless verifier.

use vstd::prelude::*;
use vstd::string::StrSliceExecFns;
use vstd::string::StringExecFns;

use crate::hash::copy_bytes;
use crate::hash::bytes_eq;
use crate::hash::sha256;
use crate::hash::sha256_of;
use crate::hash::spec_zero_digest;
use crate::hash::zero_digest;
use crate::text::cp_lt;
use crate::text::cp_lt_exec;
use crate::text::lemma_cp_lt_total;
use crate::text::lemma_cp_lt_trans;
use crate::text::str_eq;

verus! {

/// One step of a Merkle proof: the sibling digest and its side.
#[derive(Debug, Clone, PartialEq)]
pub struct MerkleProofNode {
    /// The sibling digest at this tree level.
    pub hash: Vec<u8>,
    /// Whether the sibling sits on the left of the path.
    pub is_left: bool,
}

/// A membership proof: the leaf digest, the sibling path, and the root
/// the proof was issued under.
#[derive(Debug, Clone, PartialEq)]
pub struct MerkleProof {
    /// The digest of the leaf being proven.
    pub leaf_hash: Vec<u8>,
    /// The sibling path from leaf to root.
    pub path: Vec<MerkleProofNode>,
    /// The root digest at issue time.
    pub root_hash: Vec<u8>,
}

/// The parent digest of two children.
pub open spec fn spec_hash_pair(l: Seq<u8>, r: Seq<u8>) -> Seq<u8> {
    sha256_of(l + r)
}

/// One level up: consecutive digests are paired and hashed; an unpaired
/// final digest is hashed with itself.
pub open spec fn spec_next_level(level: Seq<Seq<u8>>) -> Seq<Seq<u8>> {
    Seq::new(
        ((level.len() + 1) / 2) as nat,
        |i: int|
            if 2 * i + 1 < level.len() {
                spec_hash_pair(level[2 * i], level[2 * i + 1])
            } else {
                spec_hash_pair(level[2 * i], level[2 * i])
            },
    )
}

/// The root of a level: the zero digest for no leaves, the leaf itself
/// for one, and otherwise the root of the level above.
pub open spec fn spec_root_of(level: Seq<Seq<u8>>) -> Seq<u8>
    decreases level.len(),
{
    if level.len() == 0 {
        spec_zero_digest()
    } else if level.len() == 1 {
        level[0]
    } else {
        spec_root_of(spec_next_level(level))
    }
}

/// Folding a proof path from the leaf upwards.
pub open spec fn spec_fold_path(leaf: Seq<u8>, path: Seq<MerkleProofNode>) -> Seq<u8>
    decreases path.len(),
{
    if path.len() == 0 {
        leaf
    } else {
        let prev = spec_fold_path(leaf, path.drop_last());
        let node = path.last();
        if node.is_left {
            spec_hash_pair(node.hash@, prev)
        } else {
            spec_hash_pair(prev, node.hash@)
        }
    }
}

/// The tree's entries at the specification level.
pub type EntriesView = Seq<(Seq<char>, Seq<u8>)>;

/// The digests of the entries, in entry order.
pub open spec fn spec_digests(es: EntriesView) -> Seq<Seq<u8>> {
    es.map_values(|e: (Seq<char>, Seq<u8>)| e.1)
}

/// The stored digest for a name, if any.
pub open spec fn spec_lookup(es: EntriesView, name: Seq<char>) -> Option<Seq<u8>>
    decreases es.len(),
{
    if es.len() == 0 {
        None
    } else if es[0].0 == name {
        Some(es[0].1)
    } else {
        spec_lookup(es.drop_first(), name)
    }
}

/// The position of a name among the entries, or -1.
pub open spec fn spec_position(es: EntriesView, name: Seq<char>) -> int
    decreases es.len(),
{
    if es.len() == 0 {
        -1
    } else if es[0].0 == name {
        0
    } else {
        let r = spec_position(es.drop_first(), name);
        if r < 0 {
            -1
        } else {
            r + 1
        }
    }
}

/// Sorted insertion: an existing name is overwritten in place.
pub open spec fn spec_insert_sorted(es: EntriesView, name: Seq<char>, digest: Seq<u8>) -> EntriesView
    decreases es.len(),
{
    if es.len() == 0 {
        seq![(name, digest)]
    } else if cp_lt(name, es[0].0) {
        seq![(name, digest)] + es
    } else if name == es[0].0 {
        seq![(name, digest)] + es.drop_first()
    } else {
        seq![es[0]] + spec_insert_sorted(es.drop_first(), name, digest)
    }
}

/// Removal by name; a missing name leaves the entries unchanged.
pub open spec fn spec_remove_key(es: EntriesView, name: Seq<char>) -> EntriesView
    decreases es.len(),
{
    if es.len() == 0 {
        es
    } else if es[0].0 == name {
        es.drop_first()
    } else {
        seq![es[0]] + spec_remove_key(es.drop_first(), name)
    }
}

/// Entries strictly sorted by name.
pub open spec fn spec_sorted(es: EntriesView) -> bool {
    forall|i: int, j: int| 0 <= i < j < es.len() ==> cp_lt(#[trigger] es[i].0, #[trigger] es[j].0)
}

/// The Merkle tree: named leaf digests in sorted order, with a cached
/// root that any mutation invalidates.
#[derive(Debug)]
pub struct MerkleTree {
    leaves: Vec<(String, Vec<u8>)>,
    cached_root: Option<Vec<u8>>,
}

impl MerkleTree {
    /// The entries, keys and digests by view, in stored order.
    pub closed spec fn spec_entries(self) -> EntriesView {
        self.leaves@.map_values(|e: (String, Vec<u8>)| (e.0@, e.1@))
    }

    /// Entries sorted strictly by name, and any cached root current.
    pub closed spec fn wf(self) -> bool {
        &&& spec_sorted(self.spec_entries())
        &&& (self.cached_root matches Some(c) ==> c@ == spec_root_of(
            spec_digests(self.spec_entries()),
        ))
    }

    /// An empty tree.
    pub fn new() -> (t: MerkleTree)
        ensures
            t.wf(),
            t.spec_entries() == Seq::<(Seq<char>, Seq<u8>)>::empty(),
    {
        let t = MerkleTree { leaves: Vec::new(), cached_root: None };
        proof {
            assert(t.spec_entries() =~= Seq::<(Seq<char>, Seq<u8>)>::empty());
        }
        t
    }

    /// The number of leaves.
    pub fn len(&self) -> (r: usize)
        ensures
            r == self.spec_entries().len(),
    {
        self.leaves.len()
    }

    /// Whether the tree has no leaves.
    pub fn is_empty(&self) -> (r: bool)
        ensures
            r == (self.spec_entries().len() == 0),
    {
        self.leaves.len() == 0
    }

    /// The digest stored for `key`, if any.
    pub fn get(&self, key: &str) -> (r: Option<Vec<u8>>)
        ensures
            match spec_lookup(self.spec_entries(), key@) {
                Some(d) => r matches Some(v) && v@ == d,
                None => r is None,
            },
    {
        let n = self.leaves.len();
        let mut i: usize = 0;
        while i < n
            invariant
                n == self.leaves@.len(),
                i <= n,
                forall|k: int| 0 <= k < i ==> (#[trigger] self.leaves@[k]).0@ != key@,
            decreases n - i,
        {
            if str_eq(self.leaves[i].0.as_str(), key) {
                proof {
                    lemma_position_at(self.spec_entries(), key@, i as int);
                }
                return Some(copy_bytes(&self.leaves[i].1));
            }
            i = i + 1;
        }
        proof {
            lemma_position_none(self.spec_entries(), key@);
        }
        None
    }

    /// Inserts or overwrites a leaf; the cached root is dropped.
    pub fn insert(&mut self, key: &str, hash: Vec<u8>)
        requires
            old(self).wf(),
        ensures
            final(self).wf(),
            final(self).spec_entries() == spec_insert_sorted(
                old(self).spec_entries(),
                key@,
                hash@,
            ),
    {
        let n = self.leaves.len();
        let ghost es0 = self.spec_entries();
        let mut i: usize = 0;
        while i < n
            invariant
                n == self.leaves@.len(),
                i <= n,
                es0 == self.spec_entries(),
                es0 == old(self).spec_entries(),
                spec_sorted(es0),
                forall|k: int| 0 <= k < i ==> cp_lt((#[trigger] self.spec_entries()[k]).0, key@),
            decreases n - i,
        {
            if str_eq(self.leaves[i].0.as_str(), key) {
                proof {
                    lemma_insert_sorted_at(es0, key@, hash@, i as int, true);
                }
                self.leaves.set(i, (key.to_owned(), hash));
                self.cached_root = None;
                proof {
                    assert(self.spec_entries() =~= es0.update(
                        i as int,
                        (key@, hash@),
                    ));
                    assert(self.spec_entries() =~= spec_insert_sorted(es0, key@, hash@));
                    lemma_insert_preserves_sorted_update(es0, key@, hash@, i as int);
                }
                return ;
            }
            if !cp_lt_exec(self.leaves[i].0.as_str(), key) {
                // this key sorts before the stored one: insert here
                proof {
                    lemma_cp_lt_total_here(es0, key@, i as int);
                    lemma_insert_sorted_at(es0, key@, hash@, i as int, false);
                }
                self.leaves.insert(i, (key.to_owned(), hash));
                self.cached_root = None;
                proof {
                    assert(self.spec_entries() =~= es0.insert(i as int, (key@, hash@)));
                    assert(self.spec_entries() =~= spec_insert_sorted(es0, key@, hash@));
                    lemma_insert_preserves_sorted_ins(es0, key@, hash@, i as int);
                }
                return ;
            }
            i = i + 1;
        }
        proof {
            lemma_insert_sorted_at(es0, key@, hash@, n as int, false);
        }
        self.leaves.push((key.to_owned(), hash));
        self.cached_root = None;
        proof {
            assert(self.spec_entries() =~= es0.push((key@, hash@)));
            assert(es0.insert(n as int, (key@, hash@)) =~= es0.push((key@, hash@)));
            assert(self.spec_entries() =~= spec_insert_sorted(es0, key@, hash@));
            lemma_insert_preserves_sorted_ins(es0, key@, hash@, n as int);
        }
    }

    /// Removes a leaf by name, handing its digest back; the cached root
    /// is dropped if anything changed.
    pub fn remove(&mut self, key: &str) -> (r: Option<Vec<u8>>)
        requires
            old(self).wf(),
        ensures
            final(self).wf(),
            final(self).spec_entries() == spec_remove_key(old(self).spec_entries(), key@),
            match spec_lookup(old(self).spec_entries(), key@) {
                Some(d) => r matches Some(v) && v@ == d,
                None => r is None && final(self).spec_entries() == old(self).spec_entries(),
            },
    {
        let n = self.leaves.len();
        let ghost es0 = self.spec_entries();
        let mut i: usize = 0;
        while i < n
            invariant
                n == self.leaves@.len(),
                i <= n,
                *self == *old(self),
                es0 == self.spec_entries(),
                es0 == old(self).spec_entries(),
                old(self).wf(),
                spec_sorted(es0),
                forall|k: int| 0 <= k < i ==> (#[trigger] self.spec_entries()[k]).0 != key@,
            decreases n - i,
        {
            if str_eq(self.leaves[i].0.as_str(), key) {
                proof {
                    lemma_position_at(es0, key@, i as int);
                    lemma_remove_key_at(es0, key@, i as int);
                }
                let prev = self.leaves.remove(i);
                self.cached_root = None;
                proof {
                    assert(self.spec_entries() =~= es0.remove(i as int));
                    lemma_remove_preserves_sorted(es0, i as int);
                }
                return Some(prev.1);
            }
            i = i + 1;
        }
        proof {
            lemma_position_none(es0, key@);
            lemma_remove_key_missing(es0, key@);
        }
        None
    }

    /// The current root digest, computed if the cache is stale.
    pub fn get_root(&mut self) -> (r: Vec<u8>)
        requires
            old(self).wf(),
        ensures
            final(self).wf(),
            final(self).spec_entries() == old(self).spec_entries(),
            r@ == spec_root_of(spec_digests(old(self).spec_entries())),
    {
        match &self.cached_root {
            Some(c) => {
                return copy_bytes(c);
            },
            None => {},
        }
        let root = self.compute_root();
        self.cached_root = Some(copy_bytes(&root));
        root
    }

    fn compute_root(&self) -> (r: Vec<u8>)
        ensures
            r@ == spec_root_of(spec_digests(self.spec_entries())),
    {
        let n = self.leaves.len();
        let mut level: Vec<Vec<u8>> = Vec::new();
        let mut i: usize = 0;
        while i < n
            invariant
                n == self.leaves@.len(),
                i <= n,
                level@.len() == i,
                forall|k: int|
                    0 <= k < i ==> (#[trigger] level@[k])@ == self.spec_entries()[k].1,
            decreases n - i,
        {
            level.push(copy_bytes(&self.leaves[i].1));
            i = i + 1;
        }
        proof {
            assert(views_of(level@) =~= spec_digests(self.spec_entries()));
        }
        merkle_root_of_level(level)
    }

    /// Issues a membership proof for `key`: present names always receive
    /// a proof whose path folds from the leaf digest to the root the tree
    /// reports; absent names receive none.
    pub fn get_proof(&mut self, key: &str) -> (r: Option<MerkleProof>)
        requires
            old(self).wf(),
        ensures
            final(self).wf(),
            final(self).spec_entries() == old(self).spec_entries(),
            (r is Some) == (spec_lookup(old(self).spec_entries(), key@) is Some),
            r matches Some(p) ==> {
                &&& Some(p.leaf_hash@) == spec_lookup(old(self).spec_entries(), key@)
                &&& p.root_hash@ == spec_root_of(spec_digests(old(self).spec_entries()))
                &&& spec_fold_path(p.leaf_hash@, p.path@) == p.root_hash@
            },
    {
        let root = self.get_root();
        let ghost es = self.spec_entries();

        // find the leaf position
        let n = self.leaves.len();
        let mut pos: usize = 0;
        let mut found = false;
        let mut i: usize = 0;
        while i < n
            invariant
                n == self.leaves@.len(),
                i <= n,
                es == self.spec_entries(),
                !found ==> forall|k: int|
                    0 <= k < i ==> (#[trigger] self.spec_entries()[k]).0 != key@,
                found ==> pos < i && self.spec_entries()[pos as int].0 == key@ && forall|k: int|
                    0 <= k < pos ==> (#[trigger] self.spec_entries()[k]).0 != key@,
            decreases n - i,
        {
            if !found && str_eq(self.leaves[i].0.as_str(), key) {
                found = true;
                pos = i;
            }
            i = i + 1;
        }
        if !found {
            proof {
                lemma_position_none(es, key@);
            }
            return None;
        }
        proof {
            lemma_position_at(es, key@, pos as int);
        }

        let leaf = copy_bytes(&self.leaves[pos].1);

        // build the current level of digests
        let mut level: Vec<Vec<u8>> = Vec::new();
        let mut k: usize = 0;
        while k < n
            invariant
                n == self.leaves@.len(),
                k <= n,
                es == self.spec_entries(),
                level@.len() == k,
                forall|a: int|
                    0 <= a < k ==> (#[trigger] level@[a])@ == self.spec_entries()[a].1,
            decreases n - k,
        {
            level.push(copy_bytes(&self.leaves[k].1));
            k = k + 1;
        }
        proof {
            assert(views_of(level@) =~= spec_digests(es));
        }

        let mut path: Vec<MerkleProofNode> = Vec::new();
        let mut idx: usize = pos;
        while level.len() > 1
            invariant
                idx < level@.len(),
                spec_fold_path(leaf@, path@) == views_of(level@)[idx as int],
                spec_root_of(views_of(level@)) == spec_root_of(spec_digests(es)),
            decreases level@.len(),
        {
            let ghost lv = views_of(level@);
            let len = level.len();
            let sib = if idx % 2 == 0 {
                idx + 1
            } else {
                idx - 1
            };
            let sib_hash = if sib < len {
                copy_bytes(&level[sib])
            } else {
                copy_bytes(&level[idx])
            };
            let node = MerkleProofNode { hash: sib_hash, is_left: idx % 2 == 1 };
            let ghost path0 = path@;
            path.push(node);

            let next = next_level_of(&level);
            proof {
                assert(path@.drop_last() =~= path0);
                assert(views_of(next@) == spec_next_level(lv));
                assert(views_of(next@).len() == next@.len());
                lemma_fold_step(leaf@, path@, lv, idx as int);
            }
            level = next;
            idx = idx / 2;
        }
        proof {
            assert(views_of(level@)[0] == spec_root_of(views_of(level@)));
        }
        Some(MerkleProof { leaf_hash: leaf, path, root_hash: root })
    }

    /// Verifies a proof against a trusted root without any access to the
    /// tree: accepts exactly when the path folds from the leaf to that
    /// root.
    pub fn verify_proof(proof: &MerkleProof, expected_root: &Vec<u8>) -> (r: bool)
        ensures
            r == (spec_fold_path(proof.leaf_hash@, proof.path@) == expected_root@),
    {
        let n = proof.path.len();
        let mut current = copy_bytes(&proof.leaf_hash);
        let mut i: usize = 0;
        while i < n
            invariant
                n == proof.path@.len(),
                i <= n,
                current@ == spec_fold_path(proof.leaf_hash@, proof.path@.take(i as int)),
            decreases n - i,
        {
            let node = &proof.path[i];
            let mut joined: Vec<u8> = Vec::new();
            if node.is_left {
                let mut left = copy_bytes(&node.hash);
                joined.append(&mut left);
                joined.append(&mut current);
            } else {
                joined.append(&mut current);
                let mut right = copy_bytes(&node.hash);
                joined.append(&mut right);
            }
            current = sha256(joined.as_slice());
            i = i + 1;
            proof {
                assert(proof.path@.take(i as int).drop_last() =~= proof.path@.take(i - 1));
                assert(proof.path@.take(i as int).last() == proof.path@[i - 1]);
            }
        }
        proof {
            assert(proof.path@.take(n as int) =~= proof.path@);
        }
        bytes_eq(&current, expected_root)
    }
}

impl MerkleTree {
    /// The leaf names, in sorted order.
    pub fn names(&self) -> (r: Vec<String>)
        ensures
            r@.len() == self.spec_entries().len(),
            forall|i: int| 0 <= i < r@.len() ==> (#[trigger] r@[i])@ == self.spec_entries()[i].0,
    {
        let n = self.leaves.len();
        let mut r: Vec<String> = Vec::new();
        let mut i: usize = 0;
        while i < n
            invariant
                n == self.leaves@.len(),
                i <= n,
                r@.len() == i,
                forall|k: int| 0 <= k < i ==> (#[trigger] r@[k])@ == self.spec_entries()[k].0,
            decreases n - i,
        {
            r.push(self.leaves[i].0.clone());
            i = i + 1;
        }
        r
    }
}

impl Default for MerkleTree {
    fn default() -> (t: MerkleTree)
        ensures
            t.wf(),
            t.spec_entries() == Seq::<(Seq<char>, Seq<u8>)>::empty(),
    {
        MerkleTree::new()
    }
}

/// A well-formed tree's entries are strictly sorted, so their names are
/// pairwise distinct.
pub proof fn lemma_wf_entries_sorted(t: MerkleTree)
    requires
        t.wf(),
    ensures
        spec_sorted(t.spec_entries()),
        forall|a: int, b: int|
            0 <= a < b < t.spec_entries().len() ==> (#[trigger] t.spec_entries()[a]).0 != (
            #[trigger] t.spec_entries()[b]).0,
{
    assert forall|a: int, b: int|
        0 <= a < b < t.spec_entries().len() implies (#[trigger] t.spec_entries()[a]).0 != (
    #[trigger] t.spec_entries()[b]).0 by {
        assert(cp_lt(t.spec_entries()[a].0, t.spec_entries()[b].0));
        if t.spec_entries()[a].0 == t.spec_entries()[b].0 {
            crate::text::lemma_cp_lt_irrefl(t.spec_entries()[a].0);
        }
    }
}

/// The views of a sequence of byte vectors.
pub open spec fn views_of(s: Seq<Vec<u8>>) -> Seq<Seq<u8>> {
    s.map_values(|v: Vec<u8>| v@)
}

/// One level of pairwise hashing, executable form.
fn next_level_of(level: &Vec<Vec<u8>>) -> (r: Vec<Vec<u8>>)
    ensures
        views_of(r@) == spec_next_level(views_of(level@)),
{
    let n = level.len();
    let target = n / 2 + n % 2;
    let mut r: Vec<Vec<u8>> = Vec::new();
    let mut i: usize = 0;
    while i < target
        invariant
            n == level@.len(),
            target == (n + 1) / 2,
            i <= target,
            r@.len() == i,
            forall|k: int|
                0 <= k < i ==> (#[trigger] r@[k])@ == spec_next_level(views_of(level@))[k],
        decreases target - i,
    {
        let a = 2 * i;
        let mut joined: Vec<u8> = Vec::new();
        let mut left = copy_bytes(&level[a]);
        joined.append(&mut left);
        if a + 1 < n {
            let mut right = copy_bytes(&level[a + 1]);
            joined.append(&mut right);
        } else {
            let mut right = copy_bytes(&level[a]);
            joined.append(&mut right);
        }
        r.push(sha256(joined.as_slice()));
        i = i + 1;
    }
    proof {
        assert(views_of(r@) =~= spec_next_level(views_of(level@)));
    }
    r
}

/// The root of a level of digests, executable form.
fn merkle_root_of_level(level: Vec<Vec<u8>>) -> (r: Vec<u8>)
    ensures
        r@ == spec_root_of(views_of(level@)),
{
    let ghost orig = views_of(level@);
    if level.len() == 0 {
        return zero_digest();
    }
    let mut level = level;
    while level.len() > 1
        invariant
            level@.len() >= 1,
            spec_root_of(views_of(level@)) == spec_root_of(orig),
        decreases level@.len(),
    {
        let ghost lv = views_of(level@);
        let next = next_level_of(&level);
        proof {
            assert(views_of(next@).len() == next@.len());
            assert(spec_next_level(lv).len() == (lv.len() + 1) / 2);
            assert(spec_root_of(lv) == spec_root_of(spec_next_level(lv)));
        }
        level = next;
    }
    copy_bytes(&level[0])
}

// ---------------------------------------------------------------------
// lemmas about the sorted entry list
// ---------------------------------------------------------------------
proof fn lemma_position_at(es: EntriesView, name: Seq<char>, i: int)
    requires
        0 <= i < es.len(),
        es[i].0 == name,
        forall|k: int| 0 <= k < i ==> (#[trigger] es[k]).0 != name,
    ensures
        spec_position(es, name) == i,
        spec_lookup(es, name) == Some(es[i].1),
    decreases es.len(),
{
    if i > 0 {
        assert(forall|k: int|
            0 <= k < es.drop_first().len() ==> #[trigger] es.drop_first()[k] == es[k + 1]);
        lemma_position_at(es.drop_first(), name, i - 1);
    }
}

proof fn lemma_position_none(es: EntriesView, name: Seq<char>)
    requires
        forall|k: int| 0 <= k < es.len() ==> (#[trigger] es[k]).0 != name,
    ensures
        spec_position(es, name) == -1,
        spec_lookup(es, name) is None,
    decreases es.len(),
{
    if es.len() > 0 {
        assert(forall|k: int|
            0 <= k < es.drop_first().len() ==> #[trigger] es.drop_first()[k] == es[k + 1]);
        lemma_position_none(es.drop_first(), name);
    }
}

/// Under a sorted prefix, inserting at the scan's stopping point matches
/// the recursive insertion: `exact` tells whether the stored name at `i`
/// equals the new one (overwrite) or sorts after it (insertion).
proof fn lemma_insert_sorted_at(es: EntriesView, name: Seq<char>, digest: Seq<u8>, i: int, exact: bool)
    requires
        0 <= i <= es.len(),
        forall|k: int| 0 <= k < i ==> cp_lt((#[trigger] es[k]).0, name),
        exact ==> i < es.len() && es[i].0 == name,
        !exact ==> (i == es.len() || cp_lt(name, es[i].0)),
    ensures
        exact ==> spec_insert_sorted(es, name, digest) == es.update(i, (name, digest)),
        !exact ==> spec_insert_sorted(es, name, digest) == es.insert(i, (name, digest)),
    decreases es.len(),
{
    crate::text::lemma_cp_lt_irrefl(name);
    if i == 0 {
        if exact {
            assert(spec_insert_sorted(es, name, digest) =~= es.update(0, (name, digest)));
        } else {
            if es.len() == 0 {
                assert(spec_insert_sorted(es, name, digest) =~= es.insert(0, (name, digest)));
            } else {
                assert(spec_insert_sorted(es, name, digest) =~= es.insert(0, (name, digest)));
            }
        }
    } else {
        let t = es.drop_first();
        assert(forall|k: int| 0 <= k < t.len() ==> #[trigger] t[k] == es[k + 1]);
        assert(!cp_lt(name, es[0].0)) by {
            if cp_lt(name, es[0].0) {
                lemma_cp_lt_trans(name, es[0].0, name);
                crate::text::lemma_cp_lt_irrefl(name);
            }
        }
        assert(name != es[0].0);
        lemma_insert_sorted_at(t, name, digest, i - 1, exact);
        if exact {
            assert(spec_insert_sorted(es, name, digest) =~= es.update(i, (name, digest)));
        } else {
            assert(spec_insert_sorted(es, name, digest) =~= es.insert(i, (name, digest)));
        }
    }
}

proof fn lemma_cp_lt_total_here(es: EntriesView, name: Seq<char>, i: int)
    requires
        0 <= i < es.len(),
        es[i].0 != name,
        !cp_lt(es[i].0, name),
    ensures
        cp_lt(name, es[i].0),
{
    if !cp_lt(name, es[i].0) {
        lemma_cp_lt_total(name, es[i].0);
    }
}

proof fn lemma_insert_preserves_sorted_update(es: EntriesView, name: Seq<char>, digest: Seq<u8>, i: int)
    requires
        spec_sorted(es),
        0 <= i < es.len(),
        es[i].0 == name,
    ensures
        spec_sorted(es.update(i, (name, digest))),
{
    let r = es.update(i, (name, digest));
    assert forall|a: int, b: int| 0 <= a < b < r.len() implies cp_lt(
        (#[trigger] r[a]).0,
        (#[trigger] r[b]).0,
    ) by {
        assert(cp_lt(es[a].0, es[b].0));
    }
}

proof fn lemma_insert_preserves_sorted_ins(es: EntriesView, name: Seq<char>, digest: Seq<u8>, i: int)
    requires
        spec_sorted(es),
        0 <= i <= es.len(),
        forall|k: int| 0 <= k < i ==> cp_lt((#[trigger] es[k]).0, name),
        i == es.len() || cp_lt(name, es[i].0),
    ensures
        spec_sorted(es.insert(i, (name, digest))),
{
    let r = es.insert(i, (name, digest));
    assert forall|a: int, b: int| 0 <= a < b < r.len() implies cp_lt(
        (#[trigger] r[a]).0,
        (#[trigger] r[b]).0,
    ) by {
        if a < i && b == i {
            assert(r[a] == es[a]);
        } else if a == i && b > i {
            assert(r[b] == es[b - 1]);
            if b - 1 > i {
                assert(cp_lt(es[i].0, es[b - 1].0));
                lemma_cp_lt_trans(name, es[i].0, es[b - 1].0);
            }
        } else if a < i && b > i {
            assert(r[a] == es[a]);
            assert(r[b] == es[b - 1]);
            if a < b - 1 {
                assert(cp_lt(es[a].0, es[b - 1].0));
            } else {
                assert(cp_lt(es[a].0, name));
                if i < es.len() {
                    lemma_cp_lt_trans(es[a].0, name, es[i].0);
                }
                assert(b - 1 == a);
                assert(r[b] == es[a]);
                assert(cp_lt(es[a].0, name));
                assert(cp_lt(r[a].0, name));
                assert(r[b].0 == es[a].0);
                assert(false);
            }
        } else if a < i && b < i {
            assert(r[a] == es[a] && r[b] == es[b]);
            assert(cp_lt(es[a].0, es[b].0));
        } else if a > i && b > i {
            assert(r[a] == es[a - 1] && r[b] == es[b - 1]);
            assert(cp_lt(es[a - 1].0, es[b - 1].0));
        }
    }
}

proof fn lemma_remove_key_at(es: EntriesView, name: Seq<char>, i: int)
    requires
        0 <= i < es.len(),
        es[i].0 == name,
        forall|k: int| 0 <= k < i ==> (#[trigger] es[k]).0 != name,
    ensures
        spec_remove_key(es, name) == es.remove(i),
    decreases es.len(),
{
    if i == 0 {
        assert(spec_remove_key(es, name) =~= es.remove(0));
    } else {
        let t = es.drop_first();
        assert(forall|k: int| 0 <= k < t.len() ==> #[trigger] t[k] == es[k + 1]);
        lemma_remove_key_at(t, name, i - 1);
        assert(spec_remove_key(es, name) =~= es.remove(i));
    }
}

proof fn lemma_remove_key_missing(es: EntriesView, name: Seq<char>)
    requires
        forall|k: int| 0 <= k < es.len() ==> (#[trigger] es[k]).0 != name,
    ensures
        spec_remove_key(es, name) == es,
    decreases es.len(),
{
    if es.len() > 0 {
        let t = es.drop_first();
        assert(forall|k: int| 0 <= k < t.len() ==> #[trigger] t[k] == es[k + 1]);
        lemma_remove_key_missing(t, name);
        assert(spec_remove_key(es, name) =~= es);
    }
}

proof fn lemma_remove_preserves_sorted(es: EntriesView, i: int)
    requires
        spec_sorted(es),
        0 <= i < es.len(),
    ensures
        spec_sorted(es.remove(i)),
{
    let r = es.remove(i);
    assert forall|a: int, b: int| 0 <= a < b < r.len() implies cp_lt(
        (#[trigger] r[a]).0,
        (#[trigger] r[b]).0,
    ) by {
        let a2 = if a < i {
            a
        } else {
            a + 1
        };
        let b2 = if b < i {
            b
        } else {
            b + 1
        };
        assert(r[a] == es[a2]);
        assert(r[b] == es[b2]);
        assert(cp_lt(es[a2].0, es[b2].0));
    }
}

/// Pushing a sibling onto the path folds one level up.
proof fn lemma_fold_step(leaf: Seq<u8>, path: Seq<MerkleProofNode>, lv: Seq<Seq<u8>>, idx: int)
    requires
        path.len() >= 1,
        lv.len() >= 2,
        0 <= idx < lv.len(),
        spec_fold_path(leaf, path.drop_last()) == lv[idx],
        ({
            let node = path.last();
            if idx % 2 == 0 {
                !node.is_left && node.hash@ == (if idx + 1 < lv.len() {
                    lv[idx + 1]
                } else {
                    lv[idx]
                })
            } else {
                node.is_left && node.hash@ == lv[idx - 1]
            }
        }),
    ensures
        spec_fold_path(leaf, path) == spec_next_level(lv)[idx / 2],
        0 <= idx / 2 < spec_next_level(lv).len(),
{
    let node = path.last();
    if idx % 2 == 0 {
        assert(2 * (idx / 2) == idx);
    } else {
        assert(2 * (idx / 2) == idx - 1);
        assert(2 * (idx / 2) + 1 == idx);
    }
}

} // verus!
