//! The binder: resolves an assignment-target expression — a bare variable
//! or a list/object destructuring pattern — against a value, either
//! declaring fresh names in the innermost scope or assigning into the
//! nearest existing bindings.
//!
//! Every bind failure is location-tagged with the failing target's own
//! source position before it propagates.

use vstd::prelude::*;
use crate::ast::Expr;
use crate::ast::Location;
use crate::ast::PropItem;
use crate::ast::RawExpr;
use crate::ast::Str;
use crate::eval::error::Error;
use crate::eval::scope::frame_find;
use crate::eval::scope::frame_key_at;
use crate::eval::scope::frame_has;
use crate::eval::scope::keys_preserved_except;
use crate::eval::scope::lemma_frame_key_at_push;
use crate::eval::scope::lemma_keys_except_trans;
use crate::eval::scope::frame_keys;
use crate::eval::scope::stack_lookup;
use crate::eval::scope::stack_target;
use crate::eval::scope::ScopeStack;
use crate::eval::value::bytes_eq;
use crate::eval::value::clone_bytes;
use crate::eval::value::copy_values;
use crate::eval::value::lemma_extends_refl;
use crate::eval::value::lemma_extends_trans;
use crate::eval::value::Heap;
use crate::eval::value::SourcedValue;
use crate::eval::value::Value;

verus! {

/// Whether a bind operation declares fresh names in the innermost scope or
/// mutates the nearest existing bindings.
#[derive(Clone, Copy, PartialEq, Eq, Structural, Debug)]
pub enum BindType {
    Declaration,
    Assignment,
}

/// Whether `n` occurs among the byte strings of `bound`.
pub open spec fn name_in(bound: Seq<Str>, n: Seq<u8>) -> bool {
    exists|i: int| 0 <= i < bound.len() && (#[trigger] bound[i])@ == n
}

/// Whether `name` occurs in `bound` by contents.
fn names_contains(bound: &Vec<Str>, name: &Str) -> (r: bool)
    ensures
        r == name_in(bound@, name@),
{
    let mut i: usize = 0;
    while i < bound.len()
        invariant
            i <= bound@.len(),
            forall|j: int| 0 <= j < i ==> (#[trigger] bound@[j])@ != name@,
        decreases bound@.len() - i,
    {
        if bytes_eq(&bound[i], name) {
            return true;
        }
        i = i + 1;
    }
    false
}

/// Binds the single name `name` to `v`: a declaration in the innermost
/// frame, or an assignment to the nearest existing binding.  A failure is
/// location-tagged with `loc`.
pub fn bind_name(
    scopes: &ScopeStack,
    heap: &mut Heap,
    name: Str,
    loc: Location,
    v: SourcedValue,
    bt: BindType,
) -> (r: Result<(), Error>)
    requires
        old(heap).wf(),
        old(heap).stack_ids_wf(*scopes),
        scopes.frames@.len() > 0,
        old(heap).sv_wf(v),
    ensures
        final(heap).wf(),
        final(heap).extends(*old(heap)),
        final(heap).strs == old(heap).strs,
        final(heap).lists == old(heap).lists,
        final(heap).objects == old(heap).objects,
        final(heap).funcs == old(heap).funcs,
        final(heap).scopes@.len() == old(heap).scopes@.len(),
        keys_preserved_except(*old(heap), *final(heap), scopes.frames@.last() as int),
        ({
            let chain = scopes.frames@;
            let fid = chain.last() as int;
            match bt {
                BindType::Declaration => {
                    if frame_has(old(heap).scopes@[fid]@, name@) {
                        &&& r matches Err(e) && e matches Error::AtLoc { source, line, col }
                            && *source == (Error::AlreadyInScope { name }) && line == loc.0
                            && col == loc.1
                        &&& *final(heap) == *old(heap)
                    } else {
                        &&& r is Ok
                        &&& final(heap).scopes@ == old(heap).scopes@.update(
                            fid,
                            final(heap).scopes@[fid],
                        )
                        &&& final(heap).scopes@[fid]@ == old(heap).scopes@[fid]@.push((name, v))
                        &&& stack_lookup(chain, final(heap).scopes@, name@) == Some(v)
                    }
                },
                BindType::Assignment => {
                    let t = stack_target(chain, old(heap).scopes@, name@);
                    if t >= 0 {
                        let fidt = chain[t] as int;
                        let f = old(heap).scopes@[fidt]@;
                        let k = frame_key_at(f, name@);
                        &&& r is Ok
                        &&& final(heap).scopes@ == old(heap).scopes@.update(
                            fidt,
                            final(heap).scopes@[fidt],
                        )
                        &&& final(heap).scopes@[fidt]@ == f.update(k, (f[k].0, v))
                        &&& stack_lookup(chain, final(heap).scopes@, name@) == Some(v)
                        &&& stack_target(chain, final(heap).scopes@, name@) == t
                    } else {
                        &&& r matches Err(e) && e matches Error::AtLoc { source, line, col }
                            && *source matches Error::Undefined { name: n } && n@ == name@
                            && line == loc.0 && col == loc.1
                        &&& *final(heap) == *old(heap)
                    }
                },
            }
        }),
{
    let (line, col) = loc;
    match bt {
        BindType::Declaration => {
            let ghost fid = scopes.frames@.last() as int;
            let ghost oldf = old(heap).scopes@[fid]@;
            let ghost entry = (name, v);
            match scopes.declare(heap, name, v) {
                Ok(()) => {
                    proof {
                        let chain = scopes.frames@;
                        let newf = heap.scopes@[fid]@;
                        lemma_frame_key_at_push(oldf, entry.0@, entry);
                        assert(frame_has(newf, entry.0@));
                        assert(chain.last() == chain[chain.len() - 1]);
                        assert(stack_target(chain, heap.scopes@, entry.0@) == chain.len() - 1);
                        assert(frame_key_at(newf, entry.0@) == oldf.len());
                        assert(newf[frame_key_at(newf, entry.0@)].1 == v);
                        assert(frame_keys(oldf).is_prefix_of(frame_keys(newf))) by {
                            assert(frame_keys(oldf) =~= frame_keys(newf).take(oldf.len() as int));
                        }
                        assert forall|f2: int|
                            0 <= f2 < old(heap).scopes@.len() && f2 != fid implies frame_keys(
                            (#[trigger] heap.scopes@[f2])@,
                        ) == frame_keys(old(heap).scopes@[f2]@) by {
                            assert(heap.scopes@[f2] == old(heap).scopes@[f2]);
                        }
                    }
                    Ok(())
                },
                Err(e) => {
                    proof {
                        let fid2 = scopes.frames@.last() as int;
                        assert(frame_keys(heap.scopes@[fid2]@).is_prefix_of(
                            frame_keys(heap.scopes@[fid2]@),
                        )) by {
                            assert(frame_keys(heap.scopes@[fid2]@) =~= frame_keys(
                                heap.scopes@[fid2]@,
                            ).take(frame_keys(heap.scopes@[fid2]@).len() as int));
                        }
                    }
                    Err(Error::AtLoc { source: Box::new(e), line, col })
                },
            }
        },
        BindType::Assignment => {
            let r = scopes.assign(heap, &name, v);
            proof {
                let chain = scopes.frames@;
                let fid2 = chain.last() as int;
                let t = stack_target(chain, old(heap).scopes@, name@);
                if t >= 0 {
                    let fidt = chain[t] as int;
                    let f = old(heap).scopes@[fidt]@;
                    let k = frame_key_at(f, name@);
                    crate::eval::scope::lemma_stack_target(chain, old(heap).scopes@, name@);
                    crate::eval::scope::lemma_frame_key_at(f, name@);
                    assert(heap.scopes@ == old(heap).scopes@.update(fidt, heap.scopes@[fidt]));
                    assert(heap.scopes@[fidt]@ == f.update(k, (f[k].0, v)));
                    assert(frame_keys(heap.scopes@[fidt]@) =~= frame_keys(f));
                    crate::eval::scope::lemma_frame_key_at_update_all(f, k, (f[k].0, v));
                    crate::eval::scope::lemma_stack_target_frame_update(
                        chain,
                        old(heap).scopes@,
                        heap.scopes@,
                        name@,
                    );
                    assert(stack_target(chain, heap.scopes@, name@) == t);
                    assert forall|f2: int|
                        0 <= f2 < old(heap).scopes@.len() implies frame_keys(
                        (#[trigger] heap.scopes@[f2])@,
                    ) == frame_keys(old(heap).scopes@[f2]@) by {
                        if f2 != fidt {
                            assert(heap.scopes@[f2] == old(heap).scopes@[f2]);
                        }
                    }
                } else {
                    assert(*heap == *old(heap));
                }
                assert(frame_keys(old(heap).scopes@[fid2]@).is_prefix_of(
                    frame_keys(heap.scopes@[fid2]@),
                )) by {
                    assert(frame_keys(old(heap).scopes@[fid2]@) =~= frame_keys(
                        heap.scopes@[fid2]@,
                    ).take(frame_keys(old(heap).scopes@[fid2]@).len() as int));
                }
            }
            match r {
                Ok(()) => Ok(()),
                Err(e) => Err(Error::AtLoc { source: Box::new(e), line, col }),
            }
        },
    }
}

/// A short description of an expression kind that cannot stand as a bind
/// target.
fn target_descr(e: &RawExpr) -> (r: Str)
{
    match e {
        RawExpr::Null => vec![
            'n' as u8, 'u' as u8, 'l' as u8, 'l' as u8, ' ' as u8, 'l' as u8, 'i' as u8,
            't' as u8, 'e' as u8, 'r' as u8, 'a' as u8, 'l' as u8,
        ],
        RawExpr::Bool { .. } => vec![
            'b' as u8, 'o' as u8, 'o' as u8, 'l' as u8, ' ' as u8, 'l' as u8, 'i' as u8,
            't' as u8, 'e' as u8, 'r' as u8, 'a' as u8, 'l' as u8,
        ],
        RawExpr::Int { .. } => vec![
            'i' as u8, 'n' as u8, 't' as u8, ' ' as u8, 'l' as u8, 'i' as u8, 't' as u8,
            'e' as u8, 'r' as u8, 'a' as u8, 'l' as u8,
        ],
        RawExpr::Str { .. } => vec![
            's' as u8, 't' as u8, 'r' as u8, 'i' as u8, 'n' as u8, 'g' as u8, ' ' as u8,
            'l' as u8, 'i' as u8, 't' as u8, 'e' as u8, 'r' as u8, 'a' as u8, 'l' as u8,
        ],
        RawExpr::BinaryOp { .. } => vec![
            'o' as u8, 'p' as u8, 'e' as u8, 'r' as u8, 'a' as u8, 't' as u8, 'i' as u8,
            'o' as u8, 'n' as u8,
        ],
        _ => vec![
            'e' as u8, 'x' as u8, 'p' as u8, 'r' as u8, 'e' as u8, 's' as u8, 's' as u8,
            'i' as u8, 'o' as u8, 'n' as u8,
        ],
    }
}

/// A description for a shape mismatch between a pattern and a value.
fn mismatch_descr() -> (r: Str) {
    vec![
        'm' as u8, 'i' as u8, 's' as u8, 'm' as u8, 'a' as u8, 't' as u8, 'c' as u8, 'h' as u8,
        'e' as u8, 'd' as u8, ' ' as u8, 'p' as u8, 'a' as u8, 't' as u8, 't' as u8, 'e' as u8,
        'r' as u8, 'n' as u8,
    ]
}

/// Resolves the target expression `lhs` against `rhs`, declaring or
/// assigning as `bt` says.  A bare variable binds that one name; a list or
/// object literal is a destructuring pattern whose sub-targets are bound
/// against the corresponding elements or properties; anything else is an
/// invalid bind target.  Binding the same name twice within one
/// destructuring operation fails.
pub fn bind(
    scopes: &ScopeStack,
    heap: &mut Heap,
    lhs: &Expr,
    rhs: SourcedValue,
    bt: BindType,
) -> (r: Result<(), Error>)
    requires
        old(heap).wf(),
        old(heap).stack_ids_wf(*scopes),
        scopes.frames@.len() > 0,
        old(heap).sv_wf(rhs),
    ensures
        final(heap).wf(),
        final(heap).extends(*old(heap)),
        final(heap).strs == old(heap).strs,
        final(heap).lists == old(heap).lists,
        final(heap).objects == old(heap).objects,
        final(heap).funcs == old(heap).funcs,
        final(heap).scopes@.len() == old(heap).scopes@.len(),
        keys_preserved_except(*old(heap), *final(heap), scopes.frames@.last() as int),
        ({
            let chain = scopes.frames@;
            let fid = chain.last() as int;
            match lhs.0 {
                RawExpr::Var { name: nm } => match bt {
                BindType::Declaration => {
                    if frame_has(old(heap).scopes@[fid]@, nm@) {
                        &&& r matches Err(e) && e matches Error::AtLoc { source, line, col }
                            && *source matches Error::AlreadyInScope { name: n } && n@ == nm@
                            && line == lhs.1.0 && col == lhs.1.1
                        &&& *final(heap) == *old(heap)
                    } else {
                        &&& r is Ok
                        &&& final(heap).scopes@ == old(heap).scopes@.update(
                            fid,
                            final(heap).scopes@[fid],
                        )
                        &&& final(heap).scopes@[fid]@.len() == old(heap).scopes@[fid]@.len() + 1
                        &&& final(heap).scopes@[fid]@.last().0@ == nm@
                        &&& final(heap).scopes@[fid]@.last().1 == rhs
                        &&& final(heap).scopes@[fid]@.take(old(heap).scopes@[fid]@.len() as int)
                            == old(heap).scopes@[fid]@
                        &&& stack_lookup(chain, final(heap).scopes@, nm@) == Some(rhs)
                    }
                },
                BindType::Assignment => {
                    let t = stack_target(chain, old(heap).scopes@, nm@);
                    if t >= 0 {
                        let fidt = chain[t] as int;
                        let f = old(heap).scopes@[fidt]@;
                        let k = frame_key_at(f, nm@);
                        &&& r is Ok
                        &&& final(heap).scopes@ == old(heap).scopes@.update(
                            fidt,
                            final(heap).scopes@[fidt],
                        )
                        &&& final(heap).scopes@[fidt]@ == f.update(k, (f[k].0, rhs))
                        &&& stack_lookup(chain, final(heap).scopes@, nm@) == Some(rhs)
                        &&& stack_target(chain, final(heap).scopes@, nm@) == t
                    } else {
                        &&& r matches Err(e) && e matches Error::AtLoc { source, line, col }
                            && *source matches Error::Undefined { name: n } && n@ == nm@
                            && line == lhs.1.0 && col == lhs.1.1
                        &&& *final(heap) == *old(heap)
                    }
                },
                },
                _ => true,
            }
        }),
{
    let mut bound: Vec<Str> = Vec::new();
    bind_inner(scopes, heap, &mut bound, lhs, rhs, bt)
}

/// The recursive worker behind [`bind`], carrying the names already bound
/// by the current destructuring operation.
#[verifier::loop_isolation(false)]
fn bind_inner(
    scopes: &ScopeStack,
    heap: &mut Heap,
    bound: &mut Vec<Str>,
    lhs: &Expr,
    rhs: SourcedValue,
    bt: BindType,
) -> (r: Result<(), Error>)
    requires
        old(heap).wf(),
        old(heap).stack_ids_wf(*scopes),
        scopes.frames@.len() > 0,
        old(heap).sv_wf(rhs),
    ensures
        final(heap).wf(),
        final(heap).extends(*old(heap)),
        final(heap).strs == old(heap).strs,
        final(heap).lists == old(heap).lists,
        final(heap).objects == old(heap).objects,
        final(heap).funcs == old(heap).funcs,
        final(heap).scopes@.len() == old(heap).scopes@.len(),
        keys_preserved_except(*old(heap), *final(heap), scopes.frames@.last() as int),
        ({
            let chain = scopes.frames@;
            let fid = chain.last() as int;
            match lhs.0 {
                RawExpr::Var { name: nm } => !name_in(old(bound)@, nm@) ==> match bt {
                BindType::Declaration => {
                    if frame_has(old(heap).scopes@[fid]@, nm@) {
                        &&& r matches Err(e) && e matches Error::AtLoc { source, line, col }
                            && *source matches Error::AlreadyInScope { name: n } && n@ == nm@
                            && line == lhs.1.0 && col == lhs.1.1
                        &&& *final(heap) == *old(heap)
                    } else {
                        &&& r is Ok
                        &&& final(heap).scopes@ == old(heap).scopes@.update(
                            fid,
                            final(heap).scopes@[fid],
                        )
                        &&& final(heap).scopes@[fid]@.len() == old(heap).scopes@[fid]@.len() + 1
                        &&& final(heap).scopes@[fid]@.last().0@ == nm@
                        &&& final(heap).scopes@[fid]@.last().1 == rhs
                        &&& final(heap).scopes@[fid]@.take(old(heap).scopes@[fid]@.len() as int)
                            == old(heap).scopes@[fid]@
                        &&& stack_lookup(chain, final(heap).scopes@, nm@) == Some(rhs)
                    }
                },
                BindType::Assignment => {
                    let t = stack_target(chain, old(heap).scopes@, nm@);
                    if t >= 0 {
                        let fidt = chain[t] as int;
                        let f = old(heap).scopes@[fidt]@;
                        let k = frame_key_at(f, nm@);
                        &&& r is Ok
                        &&& final(heap).scopes@ == old(heap).scopes@.update(
                            fidt,
                            final(heap).scopes@[fidt],
                        )
                        &&& final(heap).scopes@[fidt]@ == f.update(k, (f[k].0, rhs))
                        &&& stack_lookup(chain, final(heap).scopes@, nm@) == Some(rhs)
                        &&& stack_target(chain, final(heap).scopes@, nm@) == t
                    } else {
                        &&& r matches Err(e) && e matches Error::AtLoc { source, line, col }
                            && *source matches Error::Undefined { name: n } && n@ == nm@
                            && line == lhs.1.0 && col == lhs.1.1
                        &&& *final(heap) == *old(heap)
                    }
                },
                },
                _ => true,
            }
        }),
    decreases *lhs,
{
    let Expr(raw, loc) = lhs;
    let (line, col) = *loc;
    match raw {
        RawExpr::Var { name } => {
            if names_contains(bound, name) {
                proof {
                    crate::eval::scope::lemma_keys_preserved_refl(*heap);
                    crate::eval::scope::lemma_keys_preserved_to_except(
                        *heap,
                        *heap,
                        scopes.frames@.last() as int,
                    );
                    lemma_extends_refl(*heap);
                }
                return Err(Error::AtLoc {
                    source: Box::new(Error::AlreadyInBinding { name: clone_bytes(name) }),
                    line,
                    col,
                });
            }
            bound.push(clone_bytes(name));
            let r = bind_name(scopes, heap, clone_bytes(name), (line, col), rhs, bt);
            proof {
                let fid = scopes.frames@.last() as int;
                if bt == BindType::Declaration && !frame_has(old(heap).scopes@[fid]@, name@) {
                    assert(heap.scopes@[fid]@.take(old(heap).scopes@[fid]@.len() as int)
                        =~= old(heap).scopes@[fid]@);
                }
            }
            r
        },
        RawExpr::List { items } => {
            match rhs.v {
                Value::List(lr) => {
                    let elems = copy_values(&heap.lists[lr]);
                    if elems.len() != items.len() {
                        proof {
                            crate::eval::scope::lemma_keys_preserved_refl(*heap);
                            crate::eval::scope::lemma_keys_preserved_to_except(
                                *heap,
                                *heap,
                                scopes.frames@.last() as int,
                            );
                            lemma_extends_refl(*heap);
                        }
                        return Err(Error::AtLoc {
                            source: Box::new(Error::InvalidBindTarget { descr: mismatch_descr() }),
                            line,
                            col,
                        });
                    }
                    let ghost fid_ex = scopes.frames@.last() as int;
                    proof {
                        lemma_extends_refl(*heap);
                        crate::eval::scope::lemma_keys_preserved_refl(*heap);
                        crate::eval::scope::lemma_keys_preserved_to_except(*heap, *heap, fid_ex);
                    }
                    let mut j: usize = 0;
                    while j < items.len()
                        invariant
                            j <= items@.len(),
                            lhs.0 == (RawExpr::List { items: *items }),
                            heap.wf(),
                            heap.extends(*old(heap)),
                            heap.strs == old(heap).strs,
                            heap.lists == old(heap).lists,
                            heap.objects == old(heap).objects,
                            heap.funcs == old(heap).funcs,
                            heap.scopes@.len() == old(heap).scopes@.len(),
                            keys_preserved_except(*old(heap), *heap, fid_ex),
                            fid_ex == scopes.frames@.last() as int,
                            old(heap).wf(),
                            old(heap).stack_ids_wf(*scopes),
                            scopes.frames@.len() > 0,
                            elems@.len() == items@.len(),
                            forall|e: int|
                                0 <= e < elems@.len() ==> old(heap).sv_wf(#[trigger] elems@[e]),
                            rawexpr_is_list(lhs.0),
                        decreases items@.len() - j,
                    {
                        let ghost pre = *heap;
                        let item = &items[j];
                        proof {
                            crate::eval::value::lemma_extends_sv_wf(*heap, *old(heap), elems@[j as int]);
                        }
                        let res = bind_inner(scopes, heap, bound, item, elems[j], bt);
                        proof {
                            lemma_extends_trans(*heap, pre, *old(heap));
                            lemma_keys_except_trans(*old(heap), pre, *heap, fid_ex);
                        }
                        match res {
                            Ok(()) => {},
                            Err(e) => {
                                return Err(e);
                            },
                        }
                        j = j + 1;
                    }
                    Ok(())
                },
                _ => {
                    proof {
                        crate::eval::scope::lemma_keys_preserved_refl(*heap);
                        crate::eval::scope::lemma_keys_preserved_to_except(
                            *heap,
                            *heap,
                            scopes.frames@.last() as int,
                        );
                        lemma_extends_refl(*heap);
                    }
                    Err(Error::AtLoc {
                        source: Box::new(Error::InvalidBindTarget { descr: mismatch_descr() }),
                        line,
                        col,
                    })
                },
            }
        },
        RawExpr::Object { props } => {
            match rhs.v {
                Value::Object(orf) => {
                    let ghost fid_ex = scopes.frames@.last() as int;
                    proof {
                        lemma_extends_refl(*heap);
                        crate::eval::scope::lemma_keys_preserved_refl(*heap);
                        crate::eval::scope::lemma_keys_preserved_to_except(*heap, *heap, fid_ex);
                    }
                    let mut j: usize = 0;
                    while j < props.len()
                        invariant
                            j <= props@.len(),
                            lhs.0 == (RawExpr::Object { props: *props }),
                            heap.wf(),
                            heap.extends(*old(heap)),
                            heap.strs == old(heap).strs,
                            heap.lists == old(heap).lists,
                            heap.objects == old(heap).objects,
                            heap.funcs == old(heap).funcs,
                            heap.scopes@.len() == old(heap).scopes@.len(),
                            keys_preserved_except(*old(heap), *heap, fid_ex),
                            fid_ex == scopes.frames@.last() as int,
                            old(heap).wf(),
                            old(heap).stack_ids_wf(*scopes),
                            scopes.frames@.len() > 0,
                            orf < heap.objects.len(),
                            rawexpr_is_object(lhs.0),
                        decreases props@.len() - j,
                    {
                        let ghost pre = *heap;
                        let prop = &props[j];
                        let res = bind_prop(scopes, heap, bound, prop, orf, bt);
                        proof {
                            lemma_extends_trans(*heap, pre, *old(heap));
                            lemma_keys_except_trans(*old(heap), pre, *heap, fid_ex);
                        }
                        match res {
                            Ok(()) => {},
                            Err(e) => {
                                return Err(e);
                            },
                        }
                        j = j + 1;
                    }
                    Ok(())
                },
                _ => {
                    proof {
                        crate::eval::scope::lemma_keys_preserved_refl(*heap);
                        crate::eval::scope::lemma_keys_preserved_to_except(
                            *heap,
                            *heap,
                            scopes.frames@.last() as int,
                        );
                        lemma_extends_refl(*heap);
                    }
                    Err(Error::AtLoc {
                        source: Box::new(Error::InvalidBindTarget { descr: mismatch_descr() }),
                        line,
                        col,
                    })
                },
            }
        },
        _ => {
            proof {
                crate::eval::scope::lemma_keys_preserved_refl(*heap);
                crate::eval::scope::lemma_keys_preserved_to_except(
                    *heap,
                    *heap,
                    scopes.frames@.last() as int,
                );
                lemma_extends_refl(*heap);
            }
            Err(Error::AtLoc {
                source: Box::new(Error::InvalidBindTarget { descr: target_descr(raw) }),
                line,
                col,
            })
        },
    }
}

/// Binds one property of an object destructuring pattern: the property
/// name must be a literal string naming an existing property of the
/// object, and its value expression is the sub-target.
fn bind_prop(
    scopes: &ScopeStack,
    heap: &mut Heap,
    bound: &mut Vec<Str>,
    prop: &PropItem,
    orf: usize,
    bt: BindType,
) -> (r: Result<(), Error>)
    requires
        old(heap).wf(),
        old(heap).stack_ids_wf(*scopes),
        scopes.frames@.len() > 0,
        orf < old(heap).objects.len(),
    ensures
        final(heap).wf(),
        final(heap).extends(*old(heap)),
        final(heap).strs == old(heap).strs,
        final(heap).lists == old(heap).lists,
        final(heap).objects == old(heap).objects,
        final(heap).funcs == old(heap).funcs,
        final(heap).scopes@.len() == old(heap).scopes@.len(),
        keys_preserved_except(*old(heap), *final(heap), scopes.frames@.last() as int),
    decreases *prop,
{
    let PropItem::Pair { name: name_expr, value: target } = prop;
    let Expr(name_raw, name_loc) = name_expr;
    let (line, col) = *name_loc;
    match name_raw {
        RawExpr::Str { s } => {
            let found = frame_find(&heap.objects[orf], s);
            match found {
                Some(k) => {
                    proof {
                        crate::eval::scope::lemma_frame_key_at(heap.objects@[orf as int]@, s@);
                        assert(heap.obj_wf(heap.objects@[orf as int]));
                    }
                    let v2 = heap.objects[orf][k].1;
                    proof {
                        assert(heap.sv_wf(heap.objects@[orf as int]@[k as int].1));
                    }
                    bind_inner(scopes, heap, bound, target, v2, bt)
                },
                None => {
                    proof {
                        crate::eval::scope::lemma_keys_preserved_refl(*heap);
                        crate::eval::scope::lemma_keys_preserved_to_except(
                            *heap,
                            *heap,
                            scopes.frames@.last() as int,
                        );
                        lemma_extends_refl(*heap);
                    }
                    Err(Error::AtLoc {
                        source: Box::new(Error::InvalidBindTarget { descr: mismatch_descr() }),
                        line,
                        col,
                    })
                },
            }
        },
        _ => {
            proof {
                crate::eval::scope::lemma_keys_preserved_refl(*heap);
                crate::eval::scope::lemma_keys_preserved_to_except(
                    *heap,
                    *heap,
                    scopes.frames@.last() as int,
                );
                lemma_extends_refl(*heap);
            }
            Err(Error::AtLoc {
                source: Box::new(Error::InvalidBindTarget { descr: target_descr(name_raw) }),
                line,
                col,
            })
        },
    }
}

/// Spec shorthand: the expression is a list construction.
pub open spec fn rawexpr_is_list(e: RawExpr) -> bool {
    e matches RawExpr::List { .. }
}

/// Spec shorthand: the expression is an object construction.
pub open spec fn rawexpr_is_object(e: RawExpr) -> bool {
    e matches RawExpr::Object { .. }
}

} // verus!
