//! The scope stack: an ordered chain of lexical scopes, innermost last,
//! each scope a frame mapping names to values with unique keys.
//!
//! The chain holds frame handles into the heap, so a snapshot taken for
//! closure capture shares the frames themselves: only the set of frames in
//! the chain is fixed at capture time, not their contents, and a later
//! mutation of a captured binding is visible through every snapshot.

use vstd::prelude::*;
use crate::ast::Str;
use crate::eval::error::Error;
use crate::eval::value::bytes_eq;
use crate::eval::value::clone_bytes;
use crate::eval::value::Frame;
use crate::eval::value::Heap;
use crate::eval::value::SourcedValue;

verus! {

/// The position of the first entry of `f` whose name is `name`, or `-1`.
pub open spec fn frame_key_at(f: Seq<(Str, SourcedValue)>, name: Seq<u8>) -> int
    decreases f.len(),
{
    if f.len() == 0 {
        -1
    } else if f[0].0@ == name {
        0
    } else {
        let r = frame_key_at(f.drop_first(), name);
        if r < 0 {
            -1
        } else {
            r + 1
        }
    }
}

/// Whether some entry of `f` is named `name`.
pub open spec fn frame_has(f: Seq<(Str, SourcedValue)>, name: Seq<u8>) -> bool {
    frame_key_at(f, name) >= 0
}

/// The value bound to `name` in `f`, if any.
pub open spec fn frame_get(f: Seq<(Str, SourcedValue)>, name: Seq<u8>) -> Option<SourcedValue> {
    if frame_has(f, name) {
        Some(f[frame_key_at(f, name)].1)
    } else {
        None
    }
}

/// `frame_key_at` finds exactly the first entry named `name`, and `-1`
/// exactly when there is none.
pub proof fn lemma_frame_key_at(f: Seq<(Str, SourcedValue)>, name: Seq<u8>)
    ensures
        frame_key_at(f, name) >= 0 ==> {
            let k = frame_key_at(f, name);
            &&& k < f.len()
            &&& f[k].0@ == name
            &&& forall|j: int| 0 <= j < k ==> (#[trigger] f[j]).0@ != name
        },
        frame_key_at(f, name) < 0 ==> forall|j: int|
            0 <= j < f.len() ==> (#[trigger] f[j]).0@ != name,
    decreases f.len(),
{
    if f.len() > 0 && f[0].0@ != name {
        lemma_frame_key_at(f.drop_first(), name);
        assert forall|j: int| 1 <= j < f.len() implies f.drop_first()[j - 1] == f[j] by {}
    }
}

/// How appending an entry moves `frame_key_at`.
pub proof fn lemma_frame_key_at_push(
    f: Seq<(Str, SourcedValue)>,
    name: Seq<u8>,
    p: (Str, SourcedValue),
)
    ensures
        frame_has(f, name) ==> frame_key_at(f.push(p), name) == frame_key_at(f, name),
        !frame_has(f, name) && p.0@ == name ==> frame_key_at(f.push(p), name) == f.len(),
        !frame_has(f, name) && p.0@ != name ==> frame_key_at(f.push(p), name) == -1,
    decreases f.len(),
{
    if f.len() == 0 {
        assert(f.push(p).drop_first() =~= f);
    } else if f[0].0@ != name {
        lemma_frame_key_at_push(f.drop_first(), name, p);
        assert(f.push(p).drop_first() =~= f.drop_first().push(p));
    }
}

/// Replacing the value of entry `k` without changing its name moves no
/// name's position.
pub proof fn lemma_frame_key_at_update(
    f: Seq<(Str, SourcedValue)>,
    name: Seq<u8>,
    k: int,
    p: (Str, SourcedValue),
)
    requires
        0 <= k < f.len(),
        p.0@ == f[k].0@,
    ensures
        frame_key_at(f.update(k, p), name) == frame_key_at(f, name),
    decreases f.len(),
{
    if k == 0 {
        if f[0].0@ != name {
            assert(f.update(0, p).drop_first() =~= f.drop_first());
        }
    } else {
        if f[0].0@ != name {
            lemma_frame_key_at_update(f.drop_first(), name, k - 1, p);
            assert(f.update(k, p).drop_first() =~= f.drop_first().update(k - 1, p));
        }
    }
}

/// The position in `chain` — counted from the outermost frame, with the
/// innermost frame last — of the innermost frame that binds `name`, or
/// `-1` when no frame in the chain does.
pub open spec fn stack_target(chain: Seq<usize>, scopes: Seq<Frame>, name: Seq<u8>) -> int
    decreases chain.len(),
{
    if chain.len() == 0 {
        -1
    } else if frame_has(scopes[chain.last() as int]@, name) {
        chain.len() - 1
    } else {
        stack_target(chain.drop_last(), scopes, name)
    }
}

/// The value `name` resolves to through the chain: the first match walking
/// from the innermost frame outward.
pub open spec fn stack_lookup(chain: Seq<usize>, scopes: Seq<Frame>, name: Seq<u8>) -> Option<
    SourcedValue,
> {
    let t = stack_target(chain, scopes, name);
    if t >= 0 {
        frame_get(scopes[chain[t] as int]@, name)
    } else {
        None
    }
}

/// `stack_target` finds exactly the innermost frame binding `name`, and
/// `-1` exactly when no frame in the chain binds it.
pub proof fn lemma_stack_target(chain: Seq<usize>, scopes: Seq<Frame>, name: Seq<u8>)
    ensures
        stack_target(chain, scopes, name) >= 0 ==> {
            let t = stack_target(chain, scopes, name);
            &&& t < chain.len()
            &&& frame_has(scopes[chain[t] as int]@, name)
            &&& forall|i: int|
                t < i < chain.len() ==> !frame_has(scopes[(#[trigger] chain[i]) as int]@, name)
        },
        stack_target(chain, scopes, name) < 0 ==> forall|i: int|
            0 <= i < chain.len() ==> !frame_has(scopes[(#[trigger] chain[i]) as int]@, name),
    decreases chain.len(),
{
    if chain.len() > 0 && !frame_has(scopes[chain.last() as int]@, name) {
        lemma_stack_target(chain.drop_last(), scopes, name);
        assert forall|i: int| 0 <= i < chain.len() - 1 implies chain.drop_last()[i] == chain[i] by {}
    }
}

/// The names bound by a frame, in order.
pub open spec fn frame_keys(f: Seq<(Str, SourcedValue)>) -> Seq<Seq<u8>> {
    Seq::new(f.len(), |i: int| f[i].0@)
}

/// Between two heaps, no pre-existing frame's set of names has changed:
/// values of bindings may differ and new frames may have been created, but
/// what is declared where is untouched.
pub open spec fn keys_preserved(h1: Heap, h2: Heap) -> bool {
    &&& h1.scopes@.len() <= h2.scopes@.len()
    &&& forall|fid: int|
        0 <= fid < h1.scopes@.len() ==> frame_keys((#[trigger] h2.scopes@[fid])@) == frame_keys(
            h1.scopes@[fid]@,
        )
}

/// Like [`keys_preserved`], except that the frame `fid_ex` may have gained
/// names at its end: declarations go to exactly one frame.
pub open spec fn keys_preserved_except(h1: Heap, h2: Heap, fid_ex: int) -> bool {
    &&& h1.scopes@.len() <= h2.scopes@.len()
    &&& forall|fid: int|
        0 <= fid < h1.scopes@.len() && fid != fid_ex ==> frame_keys(
            (#[trigger] h2.scopes@[fid])@,
        ) == frame_keys(h1.scopes@[fid]@)
    &&& 0 <= fid_ex < h1.scopes@.len() ==> frame_keys(h1.scopes@[fid_ex]@).is_prefix_of(
        frame_keys(h2.scopes@[fid_ex]@),
    )
}

/// A frame that has only gained names at its end still binds everything
/// it bound.
pub proof fn lemma_frame_has_prefix(f1: Seq<(Str, SourcedValue)>, f2: Seq<(Str, SourcedValue)>)
    requires
        frame_keys(f1).is_prefix_of(frame_keys(f2)),
    ensures
        forall|n: Seq<u8>| #[trigger] frame_has(f1, n) ==> frame_has(f2, n),
{
    assert forall|n: Seq<u8>| #[trigger] frame_has(f1, n) implies frame_has(f2, n) by {
        lemma_frame_key_at(f1, n);
        let k = frame_key_at(f1, n);
        assert(frame_keys(f1)[k] == f1[k].0@);
        assert(frame_keys(f2)[k] == frame_keys(f1)[k]);
        assert(f2[k].0@ == n);
        lemma_frame_key_at(f2, n);
        if frame_key_at(f2, n) < 0 {
            assert(f2[k].0@ != n);
        }
    }
}

pub proof fn lemma_keys_preserved_refl(h: Heap)
    ensures
        keys_preserved(h, h),
{
}

pub proof fn lemma_keys_preserved_trans(h1: Heap, h2: Heap, h3: Heap)
    requires
        keys_preserved(h1, h2),
        keys_preserved(h2, h3),
    ensures
        keys_preserved(h1, h3),
{
}

pub proof fn lemma_keys_preserved_to_except(h1: Heap, h2: Heap, fid_ex: int)
    requires
        keys_preserved(h1, h2),
    ensures
        keys_preserved_except(h1, h2, fid_ex),
{
    if 0 <= fid_ex < h1.scopes@.len() {
        assert(frame_keys(h2.scopes@[fid_ex]@) == frame_keys(h1.scopes@[fid_ex]@));
    }
}

pub proof fn lemma_keys_except_trans(h1: Heap, h2: Heap, h3: Heap, fid_ex: int)
    requires
        keys_preserved_except(h1, h2, fid_ex),
        keys_preserved_except(h2, h3, fid_ex),
    ensures
        keys_preserved_except(h1, h3, fid_ex),
{
    if 0 <= fid_ex < h1.scopes@.len() {
        let k1 = frame_keys(h1.scopes@[fid_ex]@);
        let k2 = frame_keys(h2.scopes@[fid_ex]@);
        let k3 = frame_keys(h3.scopes@[fid_ex]@);
        assert(k1.is_prefix_of(k2));
        assert(k2.is_prefix_of(k3));
        assert(k1 =~= k3.take(k1.len() as int));
    }
}

pub proof fn lemma_keys_preserved_then_except(h1: Heap, h2: Heap, h3: Heap, fid_ex: int)
    requires
        keys_preserved(h1, h2),
        keys_preserved_except(h2, h3, fid_ex),
    ensures
        keys_preserved_except(h1, h3, fid_ex),
{
    lemma_keys_preserved_to_except(h1, h2, fid_ex);
    lemma_keys_except_trans(h1, h2, h3, fid_ex);
}

/// An ordered chain of lexical scopes: frame handles into the heap,
/// innermost frame last.
#[derive(Debug)]
pub struct ScopeStack {
    pub frames: Vec<usize>,
}

impl ScopeStack {
    /// An empty chain.
    pub fn new() -> (r: ScopeStack)
        ensures
            r.frames@ == Seq::<usize>::empty(),
    {
        ScopeStack { frames: Vec::new() }
    }

    /// A reference-sharing copy suitable for closure capture: the copy
    /// holds the same frame handles, so mutation of a binding through
    /// either chain is visible through the other; only the set of frames
    /// in the chain is fixed, not their contents.
    pub fn snapshot(&self) -> (r: ScopeStack)
        ensures
            r.frames@ == self.frames@,
    {
        let mut copied: Vec<usize> = Vec::new();
        let mut i: usize = 0;
        while i < self.frames.len()
            invariant
                i <= self.frames.len(),
                copied@ == self.frames@.take(i as int),
            decreases self.frames.len() - i,
        {
            copied.push(self.frames[i]);
            proof {
                assert(copied@ =~= self.frames@.take(i as int + 1));
            }
            i = i + 1;
        }
        proof {
            assert(copied@ =~= self.frames@);
        }
        ScopeStack { frames: copied }
    }

    /// A new chain with one fresh, empty frame pushed innermost; the
    /// original chain is untouched and shares all its frames with the
    /// result.
    pub fn new_from_push(&self, heap: &mut Heap) -> (r: ScopeStack)
        requires
            old(heap).wf(),
            old(heap).stack_ids_wf(*self),
        ensures
            final(heap).wf(),
            final(heap).extends(*old(heap)),
            final(heap).strs == old(heap).strs,
            final(heap).lists == old(heap).lists,
            final(heap).objects == old(heap).objects,
            final(heap).funcs == old(heap).funcs,
            final(heap).scopes@.len() == old(heap).scopes@.len() + 1,
            final(heap).scopes@.take(old(heap).scopes@.len() as int) == old(heap).scopes@,
            final(heap).scopes@.last()@ == Seq::<(Str, SourcedValue)>::empty(),
            r.frames@ == self.frames@.push(old(heap).scopes.len() as usize),
            final(heap).stack_ids_wf(r),
            final(heap).stack_ids_wf(*self),
    {
        let fid = heap.scopes.len();
        let fresh: Frame = Vec::new();
        heap.scopes.push(fresh);
        let mut r = self.snapshot();
        r.frames.push(fid);
        proof {
            assert(heap.scopes@.take(old(heap).scopes@.len() as int) =~= old(heap).scopes@);
            assert(heap.strs@.take(old(heap).strs.len() as int) =~= old(heap).strs@);
            assert(heap.funcs@.take(old(heap).funcs.len() as int) =~= old(heap).funcs@);
        }
        r
    }

    /// Declares `name` in the innermost frame.  Fails, changing nothing,
    /// exactly when the innermost frame already binds `name`.
    pub fn declare(&self, heap: &mut Heap, name: Str, v: SourcedValue) -> (r: Result<(), Error>)
        requires
            old(heap).wf(),
            old(heap).stack_ids_wf(*self),
            self.frames@.len() > 0,
            old(heap).sv_wf(v),
        ensures
            final(heap).wf(),
            final(heap).extends(*old(heap)),
            final(heap).strs == old(heap).strs,
            final(heap).lists == old(heap).lists,
            final(heap).objects == old(heap).objects,
            final(heap).funcs == old(heap).funcs,
            final(heap).scopes@.len() == old(heap).scopes@.len(),
            ({
                let fid = self.frames@.last() as int;
                if frame_has(old(heap).scopes@[fid]@, name@) {
                    &&& r matches Err(e) && e == (Error::AlreadyInScope { name })
                    &&& *final(heap) == *old(heap)
                } else {
                    &&& r is Ok
                    &&& final(heap).scopes@ == old(heap).scopes@.update(
                        fid,
                        final(heap).scopes@[fid],
                    )
                    &&& final(heap).scopes@[fid]@ == old(heap).scopes@[fid]@.push((name, v))
                }
            }),
    {
        let fid = self.frames[self.frames.len() - 1];
        let found = frame_find(&heap.scopes[fid], &name);
        proof {
            lemma_frame_key_at(heap.scopes@[fid as int]@, name@);
        }
        match found {
            Some(_) => {
                proof {
                    assert(heap.strs@.take(old(heap).strs.len() as int) =~= old(heap).strs@);
                    assert(heap.funcs@.take(old(heap).funcs.len() as int) =~= old(heap).funcs@);
                }
                Err(Error::AlreadyInScope { name })
            },
            None => {
                let ghost old_frame = heap.scopes@[fid as int]@;
                heap.scopes[fid].push((name, v));
                proof {
                    let fr = heap.scopes@[fid as int]@;
                    assert(fr =~= old_frame.push((name, v)));
                    assert(heap.scopes@ =~= old(heap).scopes@.update(fid as int, heap.scopes@[fid as int]));
                    assert(heap.strs@.take(old(heap).strs.len() as int) =~= old(heap).strs@);
                    assert(heap.funcs@.take(old(heap).funcs.len() as int) =~= old(heap).funcs@);
                    assert(old(heap).frame_wf(old(heap).scopes@[fid as int]));
                    assert forall|a: int, b: int| 0 <= a < b < fr.len() implies fr[a].0@ != fr[b].0@ by {
                        if b < old_frame.len() {
                            assert(old_frame[a].0@ != old_frame[b].0@);
                        } else {
                            assert(fr[b] == (name, v));
                            assert(old_frame[a].0@ != name@);
                        }
                    }
                    assert(heap.frame_wf(heap.scopes@[fid as int]));
                    assert forall|i: int| 0 <= i < heap.scopes.len() implies heap.frame_wf(
                        #[trigger] heap.scopes@[i],
                    ) by {
                        if i != fid as int {
                            assert(heap.scopes@[i] == old(heap).scopes@[i]);
                            assert(old(heap).frame_wf(old(heap).scopes@[i]));
                        }
                    }
                }
                Ok(())
            },
        }
    }

    /// Assigns `v` to the innermost existing binding of `name`, walking
    /// from the innermost frame outward.  Fails, changing nothing, exactly
    /// when no frame in the chain binds `name`.
    pub fn assign(&self, heap: &mut Heap, name: &Str, v: SourcedValue) -> (r: Result<(), Error>)
        requires
            old(heap).wf(),
            old(heap).stack_ids_wf(*self),
            old(heap).sv_wf(v),
        ensures
            final(heap).wf(),
            final(heap).extends(*old(heap)),
            final(heap).strs == old(heap).strs,
            final(heap).lists == old(heap).lists,
            final(heap).objects == old(heap).objects,
            final(heap).funcs == old(heap).funcs,
            final(heap).scopes@.len() == old(heap).scopes@.len(),
            ({
                let t = stack_target(self.frames@, old(heap).scopes@, name@);
                if t >= 0 {
                    let fid = self.frames@[t] as int;
                    let f = old(heap).scopes@[fid]@;
                    let k = frame_key_at(f, name@);
                    &&& r is Ok
                    &&& final(heap).scopes@ == old(heap).scopes@.update(fid, final(heap).scopes@[fid])
                    &&& final(heap).scopes@[fid]@ == f.update(k, (f[k].0, v))
                    &&& stack_lookup(self.frames@, final(heap).scopes@, name@) == Some(v)
                } else {
                    &&& r matches Err(e) && e matches Error::Undefined { name: n } && n@ == name@
                    &&& *final(heap) == *old(heap)
                }
            }),
    {
        let ghost chain = self.frames@;
        let mut i: usize = self.frames.len();
        proof {
            lemma_stack_target(chain, old(heap).scopes@, name@);
        }
        while i > 0
            invariant
                i <= self.frames@.len(),
                self.frames@ == chain,
                heap == old(heap),
                old(heap).wf(),
                old(heap).stack_ids_wf(*self),
                old(heap).sv_wf(v),
                forall|j: int|
                    i <= j < chain.len() ==> !frame_has(
                        old(heap).scopes@[(#[trigger] chain[j]) as int]@,
                        name@,
                    ),
            decreases i,
        {
            i = i - 1;
            let fid = self.frames[i];
            let found = frame_find(&heap.scopes[fid], name);
            proof {
                lemma_frame_key_at(heap.scopes@[fid as int]@, name@);
            }
            match found {
                Some(k) => {
                    let ghost t = stack_target(chain, old(heap).scopes@, name@);
                    proof {
                        lemma_stack_target(chain, old(heap).scopes@, name@);
                        assert(frame_has(old(heap).scopes@[chain[i as int] as int]@, name@));
                        if t < i as int {
                            assert(!frame_has(old(heap).scopes@[chain[i as int] as int]@, name@));
                        }
                        if t > i as int {
                            assert(!frame_has(old(heap).scopes@[chain[t] as int]@, name@));
                            assert(frame_has(old(heap).scopes@[chain[t] as int]@, name@));
                        }
                        assert(t == i as int);
                    }
                    let ghost old_frame = heap.scopes@[fid as int]@;
                    heap.scopes[fid][k].1 = v;
                    proof {
                        let fr = heap.scopes@[fid as int]@;
                        assert(fr =~= old_frame.update(k as int, (old_frame[k as int].0, v)));
                        lemma_frame_key_at_update_all(old_frame, k as int, (old_frame[k as int].0, v));
                        assert(heap.scopes@ =~= old(heap).scopes@.update(fid as int, heap.scopes@[fid as int]));
                        assert(heap.strs@.take(old(heap).strs.len() as int) =~= old(heap).strs@);
                        assert(heap.funcs@.take(old(heap).funcs.len() as int) =~= old(heap).funcs@);
                        lemma_stack_target_frame_update(chain, old(heap).scopes@, heap.scopes@, name@);
                        lemma_frame_key_at(fr, name@);
                        assert(old(heap).frame_wf(old(heap).scopes@[fid as int]));
                        assert forall|a: int, b: int| 0 <= a < b < fr.len() implies fr[a].0@ != fr[b].0@ by {
                            assert(fr[a].0 == old_frame[a].0);
                            assert(fr[b].0 == old_frame[b].0);
                            assert(old_frame[a].0@ != old_frame[b].0@);
                        }
                        assert(heap.strs == old(heap).strs);
                        assert(heap.lists == old(heap).lists);
                        assert(heap.objects == old(heap).objects);
                        assert(heap.funcs == old(heap).funcs);
                        assert forall|e: int| 0 <= e < fr.len() implies heap.sv_wf((#[trigger] fr[e]).1) by {
                            if e == k as int {
                                assert(fr[e].1 == v);
                                assert(old(heap).sv_wf(v));
                                assert(heap.sv_wf(v));
                            } else {
                                assert(fr[e] == old_frame[e]);
                                assert(old(heap).sv_wf(old_frame[e].1));
                                assert(heap.sv_wf(old_frame[e].1));
                            }
                        }
                        assert(heap.frame_wf(heap.scopes@[fid as int]));
                        assert forall|j: int| 0 <= j < heap.scopes.len() implies heap.frame_wf(
                            #[trigger] heap.scopes@[j],
                        ) by {
                            if j != fid as int {
                                assert(heap.scopes@[j] == old(heap).scopes@[j]);
                                assert(old(heap).frame_wf(old(heap).scopes@[j]));
                            }
                        }
                        assert(stack_target(chain, heap.scopes@, name@) == t);
                        assert(fr[frame_key_at(fr, name@)].1 == v);
                    }
                    return Ok(());
                },
                None => {},
            }
        }
        proof {
            lemma_stack_target(chain, old(heap).scopes@, name@);
            assert(stack_target(chain, old(heap).scopes@, name@) < 0) by {
                if stack_target(chain, old(heap).scopes@, name@) >= 0 {
                    let t = stack_target(chain, old(heap).scopes@, name@);
                    assert(!frame_has(old(heap).scopes@[chain[t] as int]@, name@));
                }
            }
            assert(heap.strs@.take(old(heap).strs.len() as int) =~= old(heap).strs@);
            assert(heap.funcs@.take(old(heap).funcs.len() as int) =~= old(heap).funcs@);
        }
        Err(Error::Undefined { name: clone_bytes(name) })
    }

    /// Resolves `name` through the chain, innermost frame first.
    pub fn get(&self, heap: &Heap, name: &Str) -> (r: Option<SourcedValue>)
        requires
            heap.wf(),
            heap.stack_ids_wf(*self),
        ensures
            r == stack_lookup(self.frames@, heap.scopes@, name@),
            r matches Some(sv) ==> heap.sv_wf(sv),
    {
        let ghost chain = self.frames@;
        proof {
            lemma_stack_target(chain, heap.scopes@, name@);
        }
        let mut i: usize = self.frames.len();
        while i > 0
            invariant
                i <= self.frames@.len(),
                self.frames@ == chain,
                heap.wf(),
                heap.stack_ids_wf(*self),
                forall|j: int|
                    i <= j < chain.len() ==> !frame_has(
                        heap.scopes@[(#[trigger] chain[j]) as int]@,
                        name@,
                    ),
            decreases i,
        {
            i = i - 1;
            let fid = self.frames[i];
            let found = frame_find(&heap.scopes[fid], name);
            proof {
                lemma_frame_key_at(heap.scopes@[fid as int]@, name@);
            }
            match found {
                Some(k) => {
                    proof {
                        lemma_stack_target(chain, heap.scopes@, name@);
                        let t = stack_target(chain, heap.scopes@, name@);
                        assert(frame_has(heap.scopes@[chain[i as int] as int]@, name@));
                        assert(t == i as int);
                    }
                    let sv = heap.scopes[fid][k].1;
                    return Some(sv);
                },
                None => {},
            }
        }
        proof {
            lemma_stack_target(chain, heap.scopes@, name@);
            assert(stack_target(chain, heap.scopes@, name@) < 0) by {
                if stack_target(chain, heap.scopes@, name@) >= 0 {
                    let t = stack_target(chain, heap.scopes@, name@);
                    assert(!frame_has(heap.scopes@[chain[t] as int]@, name@));
                }
            }
        }
        None
    }
}

/// `frame_key_at` after a same-name update, for every name at once.
pub proof fn lemma_frame_key_at_update_all(f: Seq<(Str, SourcedValue)>, k: int, p: (Str, SourcedValue))
    requires
        0 <= k < f.len(),
        p.0@ == f[k].0@,
    ensures
        forall|name: Seq<u8>|
            #![trigger frame_key_at(f.update(k, p), name)]
            frame_key_at(f.update(k, p), name) == frame_key_at(f, name),
{
    assert forall|name: Seq<u8>| true implies #[trigger] frame_key_at(f.update(k, p), name)
        == frame_key_at(f, name) by {
        lemma_frame_key_at_update(f, name, k, p);
    }
}

/// Updating one frame of the chain with a frame that binds the same names
/// at the same positions leaves every name's target frame unchanged.
pub proof fn lemma_stack_target_frame_update(
    chain: Seq<usize>,
    scopes1: Seq<Frame>,
    scopes2: Seq<Frame>,
    name: Seq<u8>,
)
    requires
        forall|i: int|
            0 <= i < chain.len() ==> {
                let fid = (#[trigger] chain[i]) as int;
                &&& fid < scopes1.len()
                &&& fid < scopes2.len()
                &&& frame_key_at(scopes2[fid]@, name) == frame_key_at(scopes1[fid]@, name)
            },
    ensures
        stack_target(chain, scopes2, name) == stack_target(chain, scopes1, name),
    decreases chain.len(),
{
    if chain.len() > 0 {
        lemma_stack_target_frame_update(chain.drop_last(), scopes1, scopes2, name);
    }
}

/// Finds the position of the first entry of `f` named `name`.
pub fn frame_find(f: &Frame, name: &Str) -> (r: Option<usize>)
    ensures
        r matches Some(k) ==> k as int == frame_key_at(f@, name@),
        r is None ==> frame_key_at(f@, name@) < 0,
{
    proof {
        lemma_frame_key_at(f@, name@);
    }
    let mut i: usize = 0;
    while i < f.len()
        invariant
            i <= f@.len(),
            forall|j: int| 0 <= j < i ==> (#[trigger] f@[j]).0@ != name@,
        decreases f@.len() - i,
    {
        if bytes_eq(&f[i].0, name) {
            proof {
                lemma_frame_key_at(f@, name@);
                let k = frame_key_at(f@, name@);
                assert(f@[i as int].0@ == name@);
                assert(k == i as int) by {
                    if k < 0 {
                        assert(f@[i as int].0@ != name@);
                    } else if k < i as int {
                        assert(f@[k].0@ != name@);
                    } else if k > i as int {
                        assert(f@[i as int].0@ != name@);
                    }
                }
            }
            return Some(i);
        }
        i = i + 1;
    }
    proof {
        lemma_frame_key_at(f@, name@);
        let k = frame_key_at(f@, name@);
        if k >= 0 {
            assert(f@[k].0@ != name@);
        }
    }
    None
}

} // verus!
