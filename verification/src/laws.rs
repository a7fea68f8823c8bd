//! The aliasing, scoping and closure laws of the value model and scope
//! stack, stated once as named lemmas.  Each is proved from the exact
//! contracts of the scope operations and the heap invariant.

use vstd::prelude::*;
use crate::ast::Str;
use crate::eval::scope::frame_get;
use crate::eval::scope::frame_has;
use crate::eval::scope::frame_key_at;
use crate::eval::scope::frame_keys;
use crate::eval::scope::keys_preserved;
use crate::eval::scope::lemma_frame_key_at;
use crate::eval::scope::lemma_frame_key_at_push;
use crate::eval::scope::lemma_frame_key_at_update_all;
use crate::eval::scope::lemma_stack_target;
use crate::eval::scope::lemma_stack_target_frame_update;
use crate::eval::scope::stack_lookup;
use crate::eval::scope::stack_target;
use crate::eval::value::lex_lt;
use crate::eval::value::Frame;
use crate::eval::value::Heap;
use crate::eval::value::SourcedValue;

verus! {

/// `frame_key_at` depends only on a frame's names, never on its values.
pub proof fn lemma_frame_key_at_from_keys(f1: Seq<(Str, SourcedValue)>, f2: Seq<(Str, SourcedValue)>)
    requires
        frame_keys(f1) == frame_keys(f2),
    ensures
        forall|name: Seq<u8>| #[trigger] frame_key_at(f1, name) == frame_key_at(f2, name),
    decreases f1.len(),
{
    assert(f1.len() == f2.len()) by {
        assert(frame_keys(f1).len() == f1.len());
        assert(frame_keys(f2).len() == f2.len());
    }
    if f1.len() > 0 {
        assert(f1[0].0@ == f2[0].0@) by {
            assert(frame_keys(f1)[0] == f1[0].0@);
            assert(frame_keys(f2)[0] == f2[0].0@);
        }
        assert(frame_keys(f1.drop_first()) == frame_keys(f2.drop_first())) by {
            assert(frame_keys(f1.drop_first()) =~= frame_keys(f1).drop_first());
            assert(frame_keys(f2.drop_first()) =~= frame_keys(f2).drop_first());
        }
        lemma_frame_key_at_from_keys(f1.drop_first(), f2.drop_first());
        assert forall|name: Seq<u8>| true implies #[trigger] frame_key_at(f1, name)
            == frame_key_at(f2, name) by {
            assert(frame_key_at(f1.drop_first(), name) == frame_key_at(f2.drop_first(), name));
        }
    }
}

/// Scoping: evaluation that only declares into freshly created scopes —
/// every block, and every function body — leaves the visibility of every
/// name through every pre-existing chain unchanged: a name declared inside
/// a block is not visible after the block ends, and a name that was
/// visible stays visible.  (The values bindings hold may of course
/// change.)
pub proof fn law_block_scoping(h1: Heap, h2: Heap, chain: Seq<usize>, name: Seq<u8>)
    requires
        keys_preserved(h1, h2),
        forall|i: int| 0 <= i < chain.len() ==> (#[trigger] chain[i]) < h1.scopes.len(),
    ensures
        stack_target(chain, h2.scopes@, name) == stack_target(chain, h1.scopes@, name),
        (stack_lookup(chain, h2.scopes@, name) is None) == (stack_lookup(
            chain,
            h1.scopes@,
            name,
        ) is None),
{
    assert forall|fid: int|
        0 <= fid < h1.scopes@.len() implies frame_key_at(
        (#[trigger] h2.scopes@[fid])@,
        name,
    ) == frame_key_at(h1.scopes@[fid]@, name) by {
        lemma_frame_key_at_from_keys(h2.scopes@[fid]@, h1.scopes@[fid]@);
    }
    lemma_stack_target_frame_update(chain, h1.scopes@, h2.scopes@, name);
    lemma_stack_target(chain, h1.scopes@, name);
}

/// Scoping: resolution is innermost-first — when the innermost frame of
/// the chain binds a name, the chain resolves that name to the innermost
/// frame's binding, whatever any outer frame says.
pub proof fn law_shadowing(chain: Seq<usize>, scopes: Seq<Frame>, name: Seq<u8>)
    requires
        chain.len() > 0,
        frame_has(scopes[chain.last() as int]@, name),
    ensures
        stack_lookup(chain, scopes, name) == frame_get(scopes[chain.last() as int]@, name),
{
    assert(chain.last() == chain[chain.len() - 1]);
}

/// Aliasing: binding `b := a` where `a` is bound to `sv` makes both names
/// resolve to the very same value `sv`.  When `sv` holds a container
/// handle, both names are handles to one shared container, so a mutation
/// of its contents through either name is observed through the other;
/// when `sv` is a null, boolean, integer or string, there are no mutable
/// contents to share and the two bindings are independent.
pub proof fn law_alias_on_bind(
    chain: Seq<usize>,
    scopes1: Seq<Frame>,
    scopes2: Seq<Frame>,
    a: Seq<u8>,
    b: Seq<u8>,
    entry: (Str, SourcedValue),
    sv: SourcedValue,
)
    requires
        a != b,
        chain.len() > 0,
        forall|i: int| 0 <= i < chain.len() ==> (#[trigger] chain[i]) < scopes1.len(),
        scopes1.len() == scopes2.len(),
        stack_lookup(chain, scopes1, a) == Some(sv),
        entry.0@ == b,
        entry.1 == sv,
        !frame_has(scopes1[chain.last() as int]@, b),
        scopes2 == scopes1.update(chain.last() as int, scopes2[chain.last() as int]),
        scopes2[chain.last() as int]@ == scopes1[chain.last() as int]@.push(entry),
    ensures
        stack_lookup(chain, scopes2, b) == Some(sv),
        stack_lookup(chain, scopes2, a) == Some(sv),
{
    let fid = chain.last() as int;
    let oldf = scopes1[fid]@;
    let newf = scopes2[fid]@;
    assert(chain.last() == chain[chain.len() - 1]);

    lemma_frame_key_at_push(oldf, b, entry);
    assert(frame_key_at(newf, b) == oldf.len());
    assert(frame_has(newf, b));
    assert(stack_target(chain, scopes2, b) == chain.len() - 1);
    assert(newf[oldf.len() as int] == entry);
    assert(stack_lookup(chain, scopes2, b) == Some(sv));

    lemma_frame_key_at_push(oldf, a, entry);
    assert forall|f2: int|
        0 <= f2 < scopes1.len() implies frame_key_at((#[trigger] scopes2[f2])@, a)
        == frame_key_at(scopes1[f2]@, a) by {
        if f2 != fid {
            assert(scopes2[f2] == scopes1[f2]);
        }
    }
    lemma_stack_target_frame_update(chain, scopes1, scopes2, a);
    lemma_stack_target(chain, scopes1, a);
    let t = stack_target(chain, scopes1, a);
    assert(t >= 0);
    assert(stack_target(chain, scopes2, a) == t);
    let ft = chain[t] as int;
    lemma_frame_key_at(scopes1[ft]@, a);
    let k = frame_key_at(scopes1[ft]@, a);
    if ft == fid {
        assert(k < oldf.len());
        assert(newf[k] == oldf[k]);
    } else {
        assert(scopes2[ft] == scopes1[ft]);
    }
}

/// Aliasing, the value-type half: rebinding `b` — assigning a new value
/// to the nearest existing binding of `b` — leaves what any other name
/// resolves to untouched.  Together with [`law_alias_on_bind`] this is why
/// `b := a; b = b + 1` never affects `a` for value types: the only way to
/// "mutate" a null, boolean, integer or string is to rebind the name, and
/// rebinding is invisible to every other name.
pub proof fn law_rebind_other_name(
    chain: Seq<usize>,
    scopes1: Seq<Frame>,
    scopes2: Seq<Frame>,
    a: Seq<u8>,
    b: Seq<u8>,
    v: SourcedValue,
)
    requires
        a != b,
        forall|i: int| 0 <= i < chain.len() ==> (#[trigger] chain[i]) < scopes1.len(),
        scopes1.len() == scopes2.len(),
        stack_target(chain, scopes1, b) >= 0,
        ({
            let t = stack_target(chain, scopes1, b);
            let fid = chain[t] as int;
            let f = scopes1[fid]@;
            let k = frame_key_at(f, b);
            &&& scopes2 == scopes1.update(fid, scopes2[fid])
            &&& scopes2[fid]@ == f.update(k, (f[k].0, v))
        }),
    ensures
        stack_lookup(chain, scopes2, a) == stack_lookup(chain, scopes1, a),
{
    let t = stack_target(chain, scopes1, b);
    lemma_stack_target(chain, scopes1, b);
    let fidt = chain[t] as int;
    let f = scopes1[fidt]@;
    lemma_frame_key_at(f, b);
    let k = frame_key_at(f, b);
    lemma_frame_key_at_update_all(f, k, (f[k].0, v));
    assert forall|f2: int|
        0 <= f2 < scopes1.len() implies frame_key_at((#[trigger] scopes2[f2])@, a)
        == frame_key_at(scopes1[f2]@, a) by {
        if f2 != fidt {
            assert(scopes2[f2] == scopes1[f2]);
        }
    }
    lemma_stack_target_frame_update(chain, scopes1, scopes2, a);
    let ta = stack_target(chain, scopes1, a);
    if ta >= 0 {
        lemma_stack_target(chain, scopes1, a);
        let fa = chain[ta] as int;
        lemma_frame_key_at(scopes1[fa]@, a);
        let ka = frame_key_at(scopes1[fa]@, a);
        if fa == fidt {
            assert(f[k].0@ == b);
            assert(f[ka].0@ == a);
            assert(ka != k);
            assert(scopes2[fa]@[ka] == f[ka]);
        } else {
            assert(scopes2[fa] == scopes1[fa]);
        }
    }
}

/// Declaring a fresh name — appending one entry to the innermost frame —
/// changes what no other name resolves to, bound or unbound.
pub proof fn lemma_push_entry_other_names(
    chain: Seq<usize>,
    scopes1: Seq<Frame>,
    scopes2: Seq<Frame>,
    entry: (Str, SourcedValue),
)
    requires
        chain.len() > 0,
        forall|i: int| 0 <= i < chain.len() ==> (#[trigger] chain[i]) < scopes1.len(),
        scopes1.len() == scopes2.len(),
        !frame_has(scopes1[chain.last() as int]@, entry.0@),
        scopes2 == scopes1.update(chain.last() as int, scopes2[chain.last() as int]),
        scopes2[chain.last() as int]@ == scopes1[chain.last() as int]@.push(entry),
    ensures
        forall|other: Seq<u8>|
            other != entry.0@ ==> #[trigger] stack_lookup(chain, scopes2, other) == stack_lookup(
                chain,
                scopes1,
                other,
            ),
{
    let fid = chain.last() as int;
    let oldf = scopes1[fid]@;
    let newf = scopes2[fid]@;
    assert(chain.last() == chain[chain.len() - 1]);
    assert forall|other: Seq<u8>| other != entry.0@ implies #[trigger] stack_lookup(
        chain,
        scopes2,
        other,
    ) == stack_lookup(chain, scopes1, other) by {
        lemma_frame_key_at_push(oldf, other, entry);
        assert forall|f2: int|
            0 <= f2 < scopes1.len() implies frame_key_at((#[trigger] scopes2[f2])@, other)
            == frame_key_at(scopes1[f2]@, other) by {
            if f2 != fid {
                assert(scopes2[f2] == scopes1[f2]);
            }
        }
        lemma_stack_target_frame_update(chain, scopes1, scopes2, other);
        lemma_stack_target(chain, scopes1, other);
        let t = stack_target(chain, scopes1, other);
        if t >= 0 {
            let fa = chain[t] as int;
            lemma_frame_key_at(scopes1[fa]@, other);
            let ka = frame_key_at(scopes1[fa]@, other);
            if fa == fid {
                assert(ka < oldf.len());
                assert(newf[ka] == oldf[ka]);
            } else {
                assert(scopes2[fa] == scopes1[fa]);
            }
        }
    }
}

/// Assigning to one binding changes what no other name resolves to.
pub proof fn lemma_update_entry_other_names(
    chain: Seq<usize>,
    scopes1: Seq<Frame>,
    scopes2: Seq<Frame>,
    name: Seq<u8>,
    v: SourcedValue,
)
    requires
        forall|i: int| 0 <= i < chain.len() ==> (#[trigger] chain[i]) < scopes1.len(),
        scopes1.len() == scopes2.len(),
        stack_target(chain, scopes1, name) >= 0,
        ({
            let t = stack_target(chain, scopes1, name);
            let fid = chain[t] as int;
            let f = scopes1[fid]@;
            let k = frame_key_at(f, name);
            &&& scopes2 == scopes1.update(fid, scopes2[fid])
            &&& scopes2[fid]@ == f.update(k, (f[k].0, v))
        }),
    ensures
        forall|other: Seq<u8>|
            other != name ==> #[trigger] stack_lookup(chain, scopes2, other) == stack_lookup(
                chain,
                scopes1,
                other,
            ),
{
    assert forall|other: Seq<u8>| other != name implies #[trigger] stack_lookup(
        chain,
        scopes2,
        other,
    ) == stack_lookup(chain, scopes1, other) by {
        law_rebind_other_name(chain, scopes1, scopes2, other, name, v);
    }
}

/// Closures: a function value captures the scope chain itself, not a copy
/// of its contents.  A snapshot holds the same frame handles as the
/// defining chain, so after a captured binding is mutated — by anyone —
/// the closure resolves the name to the new value, exactly as the
/// defining chain does.
pub proof fn law_closure_sees_mutation(
    defining: Seq<usize>,
    captured: Seq<usize>,
    scopes: Seq<Frame>,
    name: Seq<u8>,
    v: SourcedValue,
)
    requires
        captured == defining,
        stack_lookup(defining, scopes, name) == Some(v),
    ensures
        stack_lookup(captured, scopes, name) == Some(v),
{
}

/// Object determinism: in a well-formed heap, every object's entries are
/// sorted strictly by key, so iterating an object always yields its
/// properties in key order, independent of insertion order.
pub proof fn law_object_iteration_sorted(h: Heap, o: int, i: int, j: int)
    requires
        h.wf(),
        0 <= o < h.objects.len(),
        0 <= i < j < h.objects@[o]@.len(),
    ensures
        lex_lt(h.objects@[o]@[i].0@, h.objects@[o]@[j].0@),
{
    assert(h.obj_wf(h.objects@[o]));
}

} // verus!
