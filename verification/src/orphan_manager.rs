//! The list of AVM2 orphans: objects with no parent whose frames still have to be run, as Flash
//! runs them. Each object is listed once, by its address, in the order it was first offered;
//! a set of the listed addresses answers "is it there already" without a walk over the list.
use fnv::{FnvHashSet, FnvHasher};
use std::collections::VecDeque;
use std::hash::BuildHasherDefault;
use vstd::prelude::*;

use crate::bitmap_cache::{Avm2LifecycleDirty, Avm2LifecycleTraversal};

verus! {

#[verifier::external_type_specification]
#[verifier::external_body]
pub struct ExFnvHasher(FnvHasher);

#[verifier::external_type_specification]
#[verifier::external_body]
#[verifier::reject_recursive_types(H)]
pub struct ExBuildHasherDefault<H>(BuildHasherDefault<H>);

/// std's `HashSet::insert` on fnv's hash set: adds `key` and says whether it was missing. vstd
/// states this for hashers it knows; FNV hashes the same bytes to the same value every time, so
/// the set holds exactly the keys put in it.
#[verifier::external_body]
fn address_set_insert(set: &mut FnvHashSet<usize>, key: usize) -> (r: bool)
    ensures
        final(set)@ == old(set)@.insert(key),
        r == !old(set)@.contains(key),
{
    set.insert(key)
}

/// std's `HashSet::remove` on fnv's hash set: takes `key` out and says whether it was there.
#[verifier::external_body]
fn address_set_remove(set: &mut FnvHashSet<usize>, key: usize) -> (r: bool)
    ensures
        final(set)@ == old(set)@.remove(key),
        r == old(set)@.contains(key),
{
    set.remove(&key)
}

/// std's `HashSet::contains` on fnv's hash set.
#[verifier::external_body]
fn address_set_contains(set: &FnvHashSet<usize>, key: usize) -> (r: bool)
    ensures
        r == set@.contains(key),
{
    set.contains(&key)
}

/// The addresses of a list of orphans.
pub open spec fn orphan_keys<W>(s: Seq<(usize, W)>) -> Seq<usize> {
    s.map_values(|e: (usize, W)| e.0)
}

/// The first `n` orphans of `s` whose flag in `keep` is set, in order.
pub open spec fn kept<W>(s: Seq<(usize, W)>, keep: Seq<bool>, n: int) -> Seq<(usize, W)>
    decreases n,
{
    if n <= 0 {
        Seq::empty()
    } else {
        let before = kept(s, keep, n - 1);
        if keep[n - 1] {
            before.push(s[n - 1])
        } else {
            before
        }
    }
}

/// The orphans, each with the address it is known by.
pub struct OrphanManager<W> {
    orphans: VecDeque<(usize, W)>,
    present: FnvHashSet<usize>,
}

impl<W> View for OrphanManager<W> {
    type V = Seq<(usize, W)>;

    closed spec fn view(&self) -> Seq<(usize, W)> {
        self.orphans@
    }
}

proof fn lemma_keys_concat<W>(a: Seq<(usize, W)>, b: Seq<(usize, W)>)
    ensures
        orphan_keys(a + b) == orphan_keys(a) + orphan_keys(b),
{
    assert(orphan_keys(a + b) =~= orphan_keys(a) + orphan_keys(b));
}

proof fn lemma_keys_remove<W>(s: Seq<(usize, W)>, i: int)
    requires
        0 <= i < s.len(),
    ensures
        orphan_keys(s.remove(i)) == orphan_keys(s).remove(i),
{
    assert(orphan_keys(s.remove(i)) =~= orphan_keys(s).remove(i));
}

/// Dropping one entry of a list without repeats keeps it without repeats and takes exactly that
/// entry out of its set.
proof fn lemma_distinct_remove(k: Seq<usize>, i: int)
    requires
        0 <= i < k.len(),
        k.no_duplicates(),
    ensures
        k.remove(i).no_duplicates(),
        k.remove(i).to_set() == k.to_set().remove(k[i]),
{
    let r = k.remove(i);
    assert forall|a: int, b: int| 0 <= a < r.len() && 0 <= b < r.len() && a != b implies r[a]
        != r[b] by {
        let ia = if a < i {
            a
        } else {
            a + 1
        };
        let ib = if b < i {
            b
        } else {
            b + 1
        };
        assert(r[a] == k[ia] && r[b] == k[ib]);
    }
    assert forall|x: usize| r.to_set().contains(x) <==> k.to_set().remove(k[i]).contains(x) by {
        if r.contains(x) {
            let a = choose|a: int| 0 <= a < r.len() && r[a] == x;
            let ia = if a < i {
                a
            } else {
                a + 1
            };
            assert(k[ia] == x && ia != i);
        }
        if k.contains(x) && x != k[i] {
            let a = choose|a: int| 0 <= a < k.len() && k[a] == x;
            assert(a != i);
            let ra = if a < i {
                a
            } else {
                a - 1
            };
            assert(r[ra] == x);
        }
    }
    assert(r.to_set() =~= k.to_set().remove(k[i]));
}

/// Adding an entry that is not there yet keeps a list without repeats and adds it to its set.
proof fn lemma_distinct_push(k: Seq<usize>, x: usize)
    requires
        k.no_duplicates(),
        !k.contains(x),
    ensures
        k.push(x).no_duplicates(),
        k.push(x).to_set() == k.to_set().insert(x),
{
    let p = k.push(x);
    assert forall|a: int, b: int| 0 <= a < p.len() && 0 <= b < p.len() && a != b implies p[a]
        != p[b] by {
        if a < k.len() && b < k.len() {
            assert(p[a] == k[a] && p[b] == k[b]);
        } else if a < k.len() {
            assert(p[a] == k[a]);
        } else if b < k.len() {
            assert(p[b] == k[b]);
        }
    }
    assert forall|y: usize| p.to_set().contains(y) <==> k.to_set().insert(x).contains(y) by {
        if p.contains(y) {
            let a = choose|a: int| 0 <= a < p.len() && p[a] == y;
            if a < k.len() {
                assert(k[a] == y);
            }
        }
        if k.contains(y) {
            let a = choose|a: int| 0 <= a < k.len() && k[a] == y;
            assert(p[a] == y);
        }
        if y == x {
            assert(p[k.len() as int] == y);
        }
    }
    assert(p.to_set() =~= k.to_set().insert(x));
}

impl<W> OrphanManager<W> {
    /// The set of listed addresses matches the list, and no address is listed twice.
    pub closed spec fn wf(&self) -> bool {
        &&& self.present@ == orphan_keys(self.orphans@).to_set()
        &&& orphan_keys(self.orphans@).no_duplicates()
    }

    /// An empty list.
    pub fn new() -> (r: OrphanManager<W>)
        ensures
            r.wf(),
            r@ == Seq::<(usize, W)>::empty(),
    {
        let r = OrphanManager { orphans: VecDeque::new(), present: FnvHashSet::default() };
        proof {
            assert(orphan_keys(r.orphans@).to_set() =~= Set::<usize>::empty());
        }
        r
    }

    /// List the object at `key`, unless it is listed already. The object's frames are run from
    /// then on, in the order objects were first listed.
    ///
    /// Being orphaned is itself observable during the remaining lifecycle phases, so the
    /// object and each of its ancestors, whose summaries `lifecycle` holds, are marked dirty for
    /// every walk even when the object is listed already.
    pub fn add_orphan_obj(
        &mut self,
        key: usize,
        entry: W,
        lifecycle: &mut Vec<Avm2LifecycleDirty>,
    )
        requires
            old(self).wf(),
        ensures
            final(self).wf(),
            orphan_keys(old(self)@).contains(key) ==> final(self)@ == old(self)@,
            !orphan_keys(old(self)@).contains(key) ==> final(self)@ == old(self)@.push(
                (key, entry),
            ),
            final(lifecycle)@.len() == old(lifecycle)@.len(),
            forall|i: int, t: Avm2LifecycleTraversal|
                0 <= i < final(lifecycle)@.len() ==> #[trigger] final(lifecycle)@[i].dirty(t),
    {
        let n = lifecycle.len();
        let mut i: usize = 0;
        while i < n
            invariant
                i <= n == lifecycle@.len(),
                forall|j: int, t: Avm2LifecycleTraversal|
                    0 <= j < i ==> #[trigger] lifecycle@[j].dirty(t),
            decreases n - i,
        {
            // Marking every walk leaves a summary with every walk dirty.
            let mut marked = Avm2LifecycleDirty::new();
            marked.mark_avm2_lifecycle_dirty(Avm2LifecycleTraversal::Enter);
            marked.mark_avm2_lifecycle_dirty(Avm2LifecycleTraversal::Construct);
            marked.mark_avm2_lifecycle_dirty(Avm2LifecycleTraversal::FrameScripts);
            lifecycle.set(i, marked);
            i += 1;
        }
        let ghost keys = orphan_keys(self.orphans@);
        if address_set_insert(&mut self.present, key) {
            self.orphans.push_back((key, entry));
            proof {
                assert(orphan_keys(self.orphans@) =~= keys.push(key));
                lemma_distinct_push(keys, key);
            }
        } else {
            assert(self.present@ =~= keys.to_set());
        }
    }

    /// Stop running the frames of the object at `key`, as for content its loader has let go of.
    /// Returns whether it was listed.
    pub fn remove_orphan_obj(&mut self, key: usize) -> (r: bool)
        requires
            old(self).wf(),
        ensures
            final(self).wf(),
            r == orphan_keys(old(self)@).contains(key),
            !r ==> final(self)@ == old(self)@,
            r ==> exists|i: int|
                0 <= i < old(self)@.len() && old(self)@[i].0 == key && final(self)@ == old(
                    self,
                )@.remove(i),
    {
        let ghost keys = orphan_keys(self.orphans@);
        if !address_set_remove(&mut self.present, key) {
            assert(self.present@ =~= keys.to_set());
            return false;
        }
        let n = self.orphans.len();
        let mut i: usize = 0;
        while i < n && self.orphans[i].0 != key
            invariant
                i <= n == self.orphans@.len(),
                keys == orphan_keys(self.orphans@),
                keys.contains(key),
                forall|j: int| 0 <= j < i ==> keys[j] != key,
            decreases n - i,
        {
            i += 1;
        }
        proof {
            if i == n {
                let j = choose|j: int| 0 <= j < keys.len() && keys[j] == key;
                assert(keys[j] != key);
            }
            assert(keys[i as int] == key);
            lemma_keys_remove(self.orphans@, i as int);
            lemma_distinct_remove(keys, i as int);
        }
        let ghost before = self.orphans@;
        let _ = self.orphans.remove(i);
        assert(before[i as int].0 == keys[i as int] && self.orphans@ == before.remove(i as int));
        true
    }

    /// Whether the object at `key` is listed.
    pub fn contains(&self, key: usize) -> (r: bool)
        requires
            self.wf(),
        ensures
            r == orphan_keys(self@).contains(key),
    {
        address_set_contains(&self.present, key)
    }

    /// How many orphans are being kept and ticked.
    pub fn len(&self) -> (r: usize)
        ensures
            r == self@.len(),
    {
        self.orphans.len()
    }

    /// The `i`-th orphan, in the order they were listed.
    pub fn orphan(&self, i: usize) -> (r: &(usize, W))
        requires
            i < self@.len(),
        ensures
            *r == self@[i as int],
    {
        &self.orphans[i]
    }

    /// At the end of a frame's phases, drop every orphan whose flag in `survives` is clear: one
    /// that has been collected or has since found a parent, or one a RemoveObject tag took off
    /// the stage. The rest keep their order.
    pub fn cleanup_dead_orphans(&mut self, survives: &[bool])
        requires
            old(self).wf(),
            survives@.len() == old(self)@.len(),
        ensures
            final(self).wf(),
            final(self)@ == kept(old(self)@, survives@, old(self)@.len() as int),
    {
        let n = self.orphans.len();
        let mut rest: VecDeque<(usize, W)> = VecDeque::new();
        core::mem::swap(&mut rest, &mut self.orphans);
        let ghost whole = rest@;
        proof {
            assert(self.orphans@ + rest@ =~= whole);
        }
        let mut i: usize = 0;
        while i < n
            invariant
                i <= n == whole.len() == survives@.len(),
                rest@ == whole.subrange(i as int, n as int),
                self.orphans@ == kept(whole, survives@, i as int),
                orphan_keys(self.orphans@ + rest@).no_duplicates(),
                self.present@ == orphan_keys(self.orphans@ + rest@).to_set(),
            decreases n - i,
        {
            let ghost kept_before = self.orphans@;
            let ghost rest_before = rest@;
            let entry = rest.pop_front().unwrap();
            assert(entry == whole[i as int]);
            if survives[i] {
                self.orphans.push_back(entry);
                proof {
                    assert(self.orphans@ + rest@ =~= kept_before + rest_before);
                }
            } else {
                let _ = address_set_remove(&mut self.present, entry.0);
                proof {
                    let combined = kept_before + rest_before;
                    let at = kept_before.len() as int;
                    assert(self.orphans@ + rest@ =~= combined.remove(at));
                    lemma_keys_remove(combined, at);
                    lemma_distinct_remove(orphan_keys(combined), at);
                }
            }
            i += 1;
        }
        proof {
            assert(self.orphans@ + rest@ =~= self.orphans@);
        }
    }
}

impl<W> Default for OrphanManager<W> {
    fn default() -> (r: OrphanManager<W>)
        ensures
            r.wf(),
            r@ == Seq::<(usize, W)>::empty(),
    {
        OrphanManager::new()
    }
}

/// However often an object is offered, the list holds it at most once.
pub proof fn law_each_object_is_listed_once<W>(m: OrphanManager<W>)
    requires
        m.wf(),
    ensures
        orphan_keys(m@).no_duplicates(),
{
}

} // verus!
