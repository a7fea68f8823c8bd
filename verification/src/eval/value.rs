//! The value model: runtime value variants and the ownership/aliasing rules
//! for composite values.
//!
//! Null, booleans, integers and byte strings are value types: copying never
//! aliases mutable state.  Lists, objects and functions are reference types:
//! a value of one of these kinds is a handle — an index into the [`Heap`]
//! arena — to one shared, mutable instance, and two values holding the same
//! handle observe each other's mutations.  Copying a value copies the
//! handle, never the container.  String contents also live in the arena so
//! that values stay plain copyable handles, but string cells are never
//! mutated in place, so strings behave as value types.
//!
//! All reads and writes of a container's contents go through the arena,
//! which serialises access structurally: an operation borrows the heap for
//! the duration of one access and releases it before the next, so two
//! handles to the same container can never be read and mutated by
//! overlapping accesses, and the self-deadlock a per-container lock would
//! risk cannot be expressed at all.

use vstd::prelude::*;
use std::rc::Rc;
use crate::ast::Block;
use crate::ast::Expr;
use crate::ast::Str;
use crate::eval::scope::ScopeStack;

verus! {

/// A handle to a shared string cell in the heap.
pub type StrRef = usize;

/// A handle to a shared, mutable list in the heap.
pub type ListRef = usize;

/// A handle to a shared, mutable object in the heap.
pub type ObjectRef = usize;

/// A handle to a shared function value in the heap.
pub type FuncRef = usize;

/// A runtime value.  Composite kinds hold handles into the [`Heap`], so the
/// type is plain data and copying it copies handles, not containers.
#[derive(Clone, Copy, PartialEq, Eq, Structural, Debug)]
pub enum Value {
    Null,
    Bool(bool),
    Int(i64),
    Str(StrRef),
    List(ListRef),
    Object(ObjectRef),
    BuiltinFunc { name: StrRef },
    Func(FuncRef),
}

/// A value paired with the most recent container it was retrieved from, if
/// any.  The source is how an implicit receiver (`this`) is threaded into
/// calls: for a value read out of an object property, the source is the
/// object it was read from.
#[derive(Clone, Copy, PartialEq, Eq, Structural, Debug)]
pub struct SourcedValue {
    pub v: Value,
    pub source: Option<Value>,
}

/// The contents of a list: an ordered, mutable sequence of values.
pub type List = Vec<SourcedValue>;

/// The contents of an object: entries sorted strictly by key, so that
/// iteration order is key order, not insertion order.
pub type Object = Vec<(Str, SourcedValue)>;

/// One lexical scope: a mutable mapping from name to value, keys unique.
pub type Frame = Vec<(Str, SourcedValue)>;

/// A user-defined function value: an optional name, the parameter
/// expressions, whether extra arguments are collected, the body, and the
/// captured closure — the scope chain live at definition time.
#[derive(Debug)]
pub struct Func {
    pub name: Option<Str>,
    pub args: Rc<Vec<Expr>>,
    pub collect_args: bool,
    pub stmts: Block,
    pub closure: ScopeStack,
}

/// The arena that owns every shared, mutable entity: string cells, lists,
/// objects, function values and scope frames.  A handle is an index into
/// the matching field.  Entries are only ever appended — a container lives
/// as long as the heap — so handles stay valid for the whole evaluation.
#[derive(Debug)]
pub struct Heap {
    pub strs: Vec<Str>,
    pub lists: Vec<List>,
    pub objects: Vec<Object>,
    pub funcs: Vec<Func>,
    pub scopes: Vec<Frame>,
}

/// Strict lexicographic order on byte strings; the iteration order of
/// object keys.
pub open spec fn lex_lt(a: Seq<u8>, b: Seq<u8>) -> bool
    decreases a.len(),
{
    if b.len() == 0 {
        false
    } else if a.len() == 0 {
        true
    } else if a[0] < b[0] {
        true
    } else if a[0] > b[0] {
        false
    } else {
        lex_lt(a.drop_first(), b.drop_first())
    }
}

/// The keys of a sequence of entries are pairwise distinct.
pub open spec fn unique_keys(es: Seq<(Str, SourcedValue)>) -> bool {
    forall|i: int, j: int|
        0 <= i < j < es.len() ==> (#[trigger] es[i]).0@ != (#[trigger] es[j]).0@
}

/// The entries are sorted strictly by key.
pub open spec fn sorted_keys(es: Seq<(Str, SourcedValue)>) -> bool {
    forall|i: int, j: int|
        0 <= i < j < es.len() ==> lex_lt((#[trigger] es[i]).0@, (#[trigger] es[j]).0@)
}

impl Heap {
    /// Every handle in `v` points into this heap.
    pub open spec fn val_wf(self, v: Value) -> bool {
        match v {
            Value::Null => true,
            Value::Bool(_) => true,
            Value::Int(_) => true,
            Value::Str(i) => i < self.strs.len(),
            Value::List(i) => i < self.lists.len(),
            Value::Object(i) => i < self.objects.len(),
            Value::BuiltinFunc { name } => name < self.strs.len(),
            Value::Func(i) => i < self.funcs.len(),
        }
    }

    /// Both the value and its source, if present, point into this heap.
    pub open spec fn sv_wf(self, sv: SourcedValue) -> bool {
        &&& self.val_wf(sv.v)
        &&& match sv.source {
            Some(s) => self.val_wf(s),
            None => true,
        }
    }

    /// Every value among the entries points into this heap.
    pub open spec fn entries_wf(self, es: Seq<(Str, SourcedValue)>) -> bool {
        forall|i: int| 0 <= i < es.len() ==> self.sv_wf((#[trigger] es[i]).1)
    }

    pub open spec fn list_wf(self, l: List) -> bool {
        forall|i: int| 0 <= i < l@.len() ==> self.sv_wf(#[trigger] l@[i])
    }

    pub open spec fn obj_wf(self, o: Object) -> bool {
        &&& self.entries_wf(o@)
        &&& sorted_keys(o@)
    }

    pub open spec fn frame_wf(self, f: Frame) -> bool {
        &&& self.entries_wf(f@)
        &&& unique_keys(f@)
    }

    /// Every frame handle of the chain points into this heap.
    pub open spec fn stack_ids_wf(self, s: ScopeStack) -> bool {
        forall|i: int| 0 <= i < s.frames@.len() ==> (#[trigger] s.frames@[i]) < self.scopes.len()
    }

    pub open spec fn func_wf(self, f: Func) -> bool {
        self.stack_ids_wf(f.closure)
    }

    /// The heap invariant: every handle stored anywhere in the arena points
    /// into the arena, object entries are sorted by key, and scope frames
    /// have unique names.
    pub open spec fn wf(self) -> bool {
        &&& forall|i: int| 0 <= i < self.lists.len() ==> self.list_wf(#[trigger] self.lists@[i])
        &&& forall|i: int| 0 <= i < self.objects.len() ==> self.obj_wf(#[trigger] self.objects@[i])
        &&& forall|i: int| 0 <= i < self.funcs.len() ==> self.func_wf(#[trigger] self.funcs@[i])
        &&& forall|i: int| 0 <= i < self.scopes.len() ==> self.frame_wf(#[trigger] self.scopes@[i])
    }

    /// The heap has evolved from `prev` by appending containers and
    /// mutating the contents of lists, objects and frames: no arena
    /// shrinks, string cells and function values are immutable.
    pub open spec fn extends(self, prev: Heap) -> bool {
        &&& prev.strs.len() <= self.strs.len()
        &&& self.strs@.take(prev.strs.len() as int) == prev.strs@
        &&& prev.funcs.len() <= self.funcs.len()
        &&& self.funcs@.take(prev.funcs.len() as int) == prev.funcs@
        &&& prev.lists.len() <= self.lists.len()
        &&& prev.objects.len() <= self.objects.len()
        &&& prev.scopes.len() <= self.scopes.len()
    }

    /// A fresh, empty heap.
    pub fn new() -> (r: Heap)
        ensures
            r.strs.len() == 0,
            r.lists.len() == 0,
            r.objects.len() == 0,
            r.funcs.len() == 0,
            r.scopes.len() == 0,
            r.wf(),
    {
        Heap {
            strs: Vec::new(),
            lists: Vec::new(),
            objects: Vec::new(),
            funcs: Vec::new(),
            scopes: Vec::new(),
        }
    }
}

/// Handles stay valid as the heap evolves.
pub broadcast proof fn lemma_extends_sv_wf(h2: Heap, h1: Heap, sv: SourcedValue)
    requires
        #[trigger] h2.extends(h1),
        #[trigger] h1.sv_wf(sv),
    ensures
        h2.sv_wf(sv),
{
}

/// `extends` is transitive.
pub proof fn lemma_extends_trans(h3: Heap, h2: Heap, h1: Heap)
    requires
        h3.extends(h2),
        h2.extends(h1),
    ensures
        h3.extends(h1),
{
    assert(h3.strs@.take(h1.strs.len() as int) =~= h1.strs@);
    assert(h3.funcs@.take(h1.funcs.len() as int) =~= h1.funcs@);
}

/// `extends` is reflexive.
pub proof fn lemma_extends_refl(h: Heap)
    ensures
        h.extends(h),
{
    assert(h.strs@.take(h.strs.len() as int) =~= h.strs@);
    assert(h.funcs@.take(h.funcs.len() as int) =~= h.funcs@);
}

/// A value with no source.
pub fn new_val_ref_with_no_source(v: Value) -> (r: SourcedValue)
    ensures
        r == (SourcedValue { v, source: None }),
{
    SourcedValue { v, source: None }
}

/// A value retrieved from `source`.
pub fn new_val_ref_with_source(v: Value, source: Value) -> (r: SourcedValue)
    ensures
        r == (SourcedValue { v, source: Some(source) }),
{
    SourcedValue { v, source: Some(source) }
}

pub fn new_null() -> (r: SourcedValue)
    ensures
        r == (SourcedValue { v: Value::Null, source: None }),
{
    new_val_ref_with_no_source(Value::Null)
}

pub fn new_bool(b: bool) -> (r: SourcedValue)
    ensures
        r == (SourcedValue { v: Value::Bool(b), source: None }),
{
    new_val_ref_with_no_source(Value::Bool(b))
}

pub fn new_int(n: i64) -> (r: SourcedValue)
    ensures
        r == (SourcedValue { v: Value::Int(n), source: None }),
{
    new_val_ref_with_no_source(Value::Int(n))
}

/// Allocates a fresh string cell holding `s`.
pub fn new_str(heap: &mut Heap, s: Str) -> (r: SourcedValue)
    requires
        old(heap).wf(),
    ensures
        final(heap).wf(),
        final(heap).extends(*old(heap)),
        final(heap).strs@ == old(heap).strs@.push(s),
        final(heap).lists == old(heap).lists,
        final(heap).objects == old(heap).objects,
        final(heap).funcs == old(heap).funcs,
        final(heap).scopes == old(heap).scopes,
        r == (SourcedValue { v: Value::Str(old(heap).strs.len() as StrRef), source: None }),
{
    let idx = heap.strs.len();
    heap.strs.push(s);
    proof {
        assert(heap.strs@.take(old(heap).strs.len() as int) =~= old(heap).strs@);
        assert(heap.funcs@.take(old(heap).funcs.len() as int) =~= old(heap).funcs@);
    }
    new_val_ref_with_no_source(Value::Str(idx))
}

/// Allocates a fresh shared list holding `list`.
pub fn new_list(heap: &mut Heap, list: List) -> (r: SourcedValue)
    requires
        old(heap).wf(),
        old(heap).list_wf(list),
    ensures
        final(heap).wf(),
        final(heap).extends(*old(heap)),
        final(heap).lists@ == old(heap).lists@.push(list),
        final(heap).strs == old(heap).strs,
        final(heap).objects == old(heap).objects,
        final(heap).funcs == old(heap).funcs,
        final(heap).scopes == old(heap).scopes,
        r == (SourcedValue { v: Value::List(old(heap).lists.len() as ListRef), source: None }),
{
    let idx = heap.lists.len();
    heap.lists.push(list);
    proof {
        assert(heap.strs@.take(old(heap).strs.len() as int) =~= old(heap).strs@);
        assert(heap.funcs@.take(old(heap).funcs.len() as int) =~= old(heap).funcs@);
    }
    new_val_ref_with_no_source(Value::List(idx))
}

/// Allocates a fresh shared object holding `object`.
pub fn new_object(heap: &mut Heap, object: Object) -> (r: SourcedValue)
    requires
        old(heap).wf(),
        old(heap).obj_wf(object),
    ensures
        final(heap).wf(),
        final(heap).extends(*old(heap)),
        final(heap).objects@ == old(heap).objects@.push(object),
        final(heap).strs == old(heap).strs,
        final(heap).lists == old(heap).lists,
        final(heap).funcs == old(heap).funcs,
        final(heap).scopes == old(heap).scopes,
        r == (SourcedValue { v: Value::Object(old(heap).objects.len() as ObjectRef), source: None }),
{
    let idx = heap.objects.len();
    heap.objects.push(object);
    proof {
        assert(heap.strs@.take(old(heap).strs.len() as int) =~= old(heap).strs@);
        assert(heap.funcs@.take(old(heap).funcs.len() as int) =~= old(heap).funcs@);
    }
    new_val_ref_with_no_source(Value::Object(idx))
}

/// Allocates a fresh function value capturing `closure`.
pub fn new_func(
    heap: &mut Heap,
    name: Option<Str>,
    args: Rc<Vec<Expr>>,
    collect_args: bool,
    stmts: Block,
    closure: ScopeStack,
) -> (r: SourcedValue)
    requires
        old(heap).wf(),
        old(heap).stack_ids_wf(closure),
    ensures
        final(heap).wf(),
        final(heap).extends(*old(heap)),
        final(heap).funcs@ == old(heap).funcs@.push(
            Func { name, args, collect_args, stmts, closure },
        ),
        final(heap).strs == old(heap).strs,
        final(heap).lists == old(heap).lists,
        final(heap).objects == old(heap).objects,
        final(heap).scopes == old(heap).scopes,
        r == (SourcedValue { v: Value::Func(old(heap).funcs.len() as FuncRef), source: None }),
{
    let idx = heap.funcs.len();
    heap.funcs.push(Func { name, args, collect_args, stmts, closure });
    proof {
        assert(heap.strs@.take(old(heap).strs.len() as int) =~= old(heap).strs@);
        assert(heap.funcs@.take(old(heap).funcs.len() as int) =~= old(heap).funcs@);
    }
    new_val_ref_with_no_source(Value::Func(idx))
}

/// Allocates a builtin-function value; `name` is how the driver's builtin
/// table is keyed when the function is called.
pub fn new_built_in_func(heap: &mut Heap, name: Str) -> (r: SourcedValue)
    requires
        old(heap).wf(),
    ensures
        final(heap).wf(),
        final(heap).extends(*old(heap)),
        final(heap).strs@ == old(heap).strs@.push(name),
        final(heap).lists == old(heap).lists,
        final(heap).objects == old(heap).objects,
        final(heap).funcs == old(heap).funcs,
        final(heap).scopes == old(heap).scopes,
        r == (SourcedValue {
            v: Value::BuiltinFunc { name: old(heap).strs.len() as StrRef },
            source: None,
        }),
{
    let idx = heap.strs.len();
    heap.strs.push(name);
    proof {
        assert(heap.strs@.take(old(heap).strs.len() as int) =~= old(heap).strs@);
        assert(heap.funcs@.take(old(heap).funcs.len() as int) =~= old(heap).funcs@);
    }
    new_val_ref_with_no_source(Value::BuiltinFunc { name: idx })
}

/// Relies on `Rc::clone`: it returns a handle to the same allocation, and
/// Verus identifies a reference-counted handle with the value it points to
/// (as vstd's specification of `Rc::new` shows), so the clone is that same
/// value.  Function values share their captured body and parameter list
/// with the syntax tree through such handles.
#[verifier::external_body]
pub fn rc_clone<T>(rc: &Rc<T>) -> (res: Rc<T>)
    ensures
        res == *rc,
{
    Rc::clone(rc)
}

/// Byte-string equality by contents.
pub fn bytes_eq(a: &Str, b: &Str) -> (r: bool)
    ensures
        r == (a@ == b@),
{
    if a.len() != b.len() {
        return false;
    }
    let mut i: usize = 0;
    while i < a.len()
        invariant
            a@.len() == b@.len(),
            i <= a@.len(),
            forall|j: int| 0 <= j < i ==> a@[j] == b@[j],
        decreases a@.len() - i,
    {
        if a[i] != b[i] {
            return false;
        }
        i = i + 1;
    }
    proof {
        assert(a@ =~= b@);
    }
    true
}

/// An owned copy of a byte string's contents.
pub fn clone_bytes(a: &Str) -> (r: Str)
    ensures
        r@ == a@,
{
    let mut r: Vec<u8> = Vec::new();
    let mut i: usize = 0;
    while i < a.len()
        invariant
            i <= a@.len(),
            r@ == a@.take(i as int),
        decreases a@.len() - i,
    {
        r.push(a[i]);
        proof {
            assert(r@ =~= a@.take(i as int + 1));
        }
        i = i + 1;
    }
    proof {
        assert(r@ =~= a@);
    }
    r
}

/// Equal prefixes of length `i`: what follows decides the lexicographic
/// comparison.
proof fn lemma_lex_at(a: Seq<u8>, b: Seq<u8>, i: int)
    requires
        0 <= i <= a.len(),
        i <= b.len(),
        forall|j: int| 0 <= j < i ==> a[j] == b[j],
    ensures
        (i < a.len() && i < b.len() && a[i] < b[i]) ==> (lex_lt(a, b) && !lex_lt(b, a) && a != b),
        (i == a.len() && i < b.len()) ==> (lex_lt(a, b) && !lex_lt(b, a) && a != b),
        (i == a.len() && i == b.len()) ==> (a == b && !lex_lt(a, b) && !lex_lt(b, a)),
    decreases i,
{
    if i == 0 {
        if a.len() == 0 && b.len() == 0 {
            assert(a =~= b);
        }
    } else {
        lemma_lex_at(a.drop_first(), b.drop_first(), i - 1);
        if i == a.len() && i == b.len() {
            assert(a.drop_first() =~= b.drop_first());
            assert(a =~= b);
        }
    }
}

/// Lexicographic order is transitive.
pub proof fn lemma_lex_lt_trans(a: Seq<u8>, b: Seq<u8>, c: Seq<u8>)
    requires
        lex_lt(a, b),
        lex_lt(b, c),
    ensures
        lex_lt(a, c),
    decreases a.len(),
{
    if a.len() > 0 && b.len() > 0 && c.len() > 0 && a[0] == b[0] && b[0] == c[0] {
        lemma_lex_lt_trans(a.drop_first(), b.drop_first(), c.drop_first());
    }
}

/// Compares two byte strings lexicographically.
pub fn lex_cmp(a: &Str, b: &Str) -> (r: core::cmp::Ordering)
    ensures
        (r is Less) == lex_lt(a@, b@),
        (r is Equal) == (a@ == b@),
        (r is Greater) == lex_lt(b@, a@),
{
    let mut i: usize = 0;
    while i < a.len() && i < b.len()
        invariant
            i <= a@.len(),
            i <= b@.len(),
            forall|j: int| 0 <= j < i ==> a@[j] == b@[j],
        decreases a@.len() - i,
    {
        if a[i] < b[i] {
            proof {
                lemma_lex_at(a@, b@, i as int);
            }
            return core::cmp::Ordering::Less;
        }
        if a[i] > b[i] {
            proof {
                lemma_lex_at(b@, a@, i as int);
            }
            return core::cmp::Ordering::Greater;
        }
        i = i + 1;
    }
    if a.len() < b.len() {
        proof {
            lemma_lex_at(a@, b@, i as int);
        }
        core::cmp::Ordering::Less
    } else if b.len() < a.len() {
        proof {
            lemma_lex_at(b@, a@, i as int);
        }
        core::cmp::Ordering::Greater
    } else {
        proof {
            lemma_lex_at(a@, b@, i as int);
        }
        core::cmp::Ordering::Equal
    }
}

/// The position at which `k` would be inserted into the sorted entries
/// `es`: the first position whose key `k` precedes, or the end.
pub open spec fn obj_insert_pos(es: Seq<(Str, SourcedValue)>, k: Seq<u8>) -> int
    decreases es.len(),
{
    if es.len() == 0 {
        0
    } else if lex_lt(k, es[0].0@) {
        0
    } else {
        1 + obj_insert_pos(es.drop_first(), k)
    }
}

pub proof fn lemma_obj_insert_pos(es: Seq<(Str, SourcedValue)>, k: Seq<u8>)
    ensures
        0 <= obj_insert_pos(es, k) <= es.len(),
        forall|i: int| 0 <= i < obj_insert_pos(es, k) ==> !lex_lt(k, (#[trigger] es[i]).0@),
        obj_insert_pos(es, k) < es.len() ==> lex_lt(k, es[obj_insert_pos(es, k)].0@),
    decreases es.len(),
{
    if es.len() > 0 && !lex_lt(k, es[0].0@) {
        lemma_obj_insert_pos(es.drop_first(), k);
        assert forall|i: int| 1 <= i < es.len() implies es.drop_first()[i - 1] == es[i] by {}
    }
}

/// Inserts `key` into sorted entries, overwriting the value if the key is
/// already present, and keeping the entries sorted strictly by key.
#[verifier::loop_isolation(false)]
pub fn object_insert_entry(o: &mut Object, key: Str, v: SourcedValue)
    requires
        sorted_keys(old(o)@),
    ensures
        sorted_keys(final(o)@),
        ({
            let es = old(o)@;
            let k = crate::eval::scope::frame_key_at(es, key@);
            if k >= 0 {
                final(o)@ == es.update(k, (es[k].0, v))
            } else {
                final(o)@ == es.insert(obj_insert_pos(es, key@), (key, v))
            }
        }),
{
    let ghost es = o@;
    proof {
        crate::eval::scope::lemma_frame_key_at(es, key@);
        lemma_obj_insert_pos(es, key@);
        lemma_sorted_unique(es);
    }
    let mut i: usize = 0;
    while i < o.len()
        invariant
            sorted_keys(es),
            unique_keys(es),
            o@ == es,
            i <= es.len(),
            forall|j: int| 0 <= j < i ==> lex_lt((#[trigger] es[j]).0@, key@),
            obj_insert_pos(es, key@) >= i,
            crate::eval::scope::frame_key_at(es, key@) >= 0 ==> crate::eval::scope::frame_key_at(
                es,
                key@,
            ) >= i,
        decreases es.len() - i,
    {
        let c = lex_cmp(&key, &o[i].0);
        match c {
            core::cmp::Ordering::Equal => {
                proof {
                    crate::eval::scope::lemma_frame_key_at(es, key@);
                    let k = crate::eval::scope::frame_key_at(es, key@);
                    assert(es[i as int].0@ == key@);
                    if k < 0 {
                        assert(es[i as int].0@ != key@);
                    }
                    if k > i as int {
                        assert(es[i as int].0@ != key@);
                    }
                    assert(k == i as int);
                }
                o[i].1 = v;
                proof {
                    assert(o@ =~= es.update(i as int, (es[i as int].0, v)));
                    assert forall|x: int, y: int|
                        0 <= x < y < o@.len() implies lex_lt(
                        (#[trigger] o@[x]).0@,
                        (#[trigger] o@[y]).0@,
                    ) by {
                        assert(o@[x].0 == es[x].0);
                        assert(o@[y].0 == es[y].0);
                        assert(lex_lt(es[x].0@, es[y].0@));
                    }
                }
                return ;
            },
            core::cmp::Ordering::Less => {
                proof {
                    let p = obj_insert_pos(es, key@);
                    lemma_obj_insert_pos(es, key@);
                    assert(lex_lt(key@, es[i as int].0@));
                    if p > i as int {
                        assert(!lex_lt(key@, es[i as int].0@));
                    }
                    assert(p == i as int);
                    let k = crate::eval::scope::frame_key_at(es, key@);
                    if k >= 0 {
                        crate::eval::scope::lemma_frame_key_at(es, key@);
                        assert(es[k].0@ == key@);
                        assert(k >= i as int);
                        if k == i as int {
                            lemma_lex_irrefl(key@);
                        }
                        if k > i as int {
                            assert(lex_lt(es[i as int].0@, es[k].0@));
                            lemma_lex_lt_trans(key@, es[i as int].0@, es[k].0@);
                            lemma_lex_lt_trans(key@, es[k].0@, key@);
                            lemma_lex_irrefl(key@);
                        }
                        assert(false);
                    }
                }
                o.insert(i, (key, v));
                proof {
                    lemma_insert_sorted(es, i as int, key@, o@);
                }
                return ;
            },
            core::cmp::Ordering::Greater => {
                proof {
                    assert(lex_lt(es[i as int].0@, key@));
                    lemma_obj_insert_pos(es, key@);
                    let p = obj_insert_pos(es, key@);
                    if p <= i as int {
                        assert(lex_lt(key@, es[p].0@));
                        assert(lex_lt(es[p].0@, key@));
                        lemma_lex_lt_trans(key@, es[p].0@, key@);
                        lemma_lex_irrefl(key@);
                    }
                    let k2 = crate::eval::scope::frame_key_at(es, key@);
                    if k2 == i as int {
                        crate::eval::scope::lemma_frame_key_at(es, key@);
                        assert(es[k2].0@ == key@);
                        lemma_lex_irrefl(key@);
                    }
                }
                i = i + 1;
            },
        }
    }
    proof {
        let p = obj_insert_pos(es, key@);
        lemma_obj_insert_pos(es, key@);
        assert(p == es.len() as int);
        let k = crate::eval::scope::frame_key_at(es, key@);
        if k >= 0 {
            crate::eval::scope::lemma_frame_key_at(es, key@);
            assert(es[k].0@ == key@);
            assert(lex_lt(es[k].0@, key@));
            lemma_lex_irrefl(key@);
            assert(false);
        }
    }
    let ghost n = o@.len();
    o.push((key, v));
    proof {
        assert(o@ =~= es.insert(es.len() as int, (key, v)));
        lemma_insert_sorted(es, es.len() as int, key@, o@);
    }
}

/// Nothing precedes itself lexicographically.
pub proof fn lemma_lex_irrefl(a: Seq<u8>)
    ensures
        !lex_lt(a, a),
    decreases a.len(),
{
    if a.len() > 0 {
        lemma_lex_irrefl(a.drop_first());
    }
}

/// Strictly sorted keys are unique.
pub proof fn lemma_sorted_unique(es: Seq<(Str, SourcedValue)>)
    requires
        sorted_keys(es),
    ensures
        unique_keys(es),
{
    assert forall|i: int, j: int|
        0 <= i < j < es.len() implies (#[trigger] es[i]).0@ != (#[trigger] es[j]).0@ by {
        assert(lex_lt(es[i].0@, es[j].0@));
        lemma_lex_irrefl(es[i].0@);
    }
}

/// Inserting at the insertion point of a sorted sequence keeps it sorted.
proof fn lemma_insert_sorted(
    es: Seq<(Str, SourcedValue)>,
    p: int,
    k: Seq<u8>,
    res: Seq<(Str, SourcedValue)>,
)
    requires
        sorted_keys(es),
        0 <= p <= es.len(),
        forall|i: int| 0 <= i < p ==> lex_lt((#[trigger] es[i]).0@, k),
        p < es.len() ==> lex_lt(k, es[p].0@),
        res.len() == es.len() + 1,
        res[p].0@ == k,
        forall|i: int| 0 <= i < p ==> #[trigger] res[i] == es[i],
        forall|i: int| p < i < res.len() ==> #[trigger] res[i] == es[i - 1],
    ensures
        sorted_keys(res),
{
    assert forall|x: int, y: int|
        0 <= x < y < res.len() implies lex_lt((#[trigger] res[x]).0@, (#[trigger] res[y]).0@) by {
        if x < p && y < p {
            assert(lex_lt(es[x].0@, es[y].0@));
        } else if x < p && y == p {
            assert(lex_lt(es[x].0@, k));
        } else if x < p && y > p {
            assert(lex_lt(es[x].0@, es[y - 1].0@));
        } else if x == p && y > p {
            if y - 1 == p {
                assert(lex_lt(k, es[p].0@));
            } else {
                assert(lex_lt(k, es[p].0@));
                assert(lex_lt(es[p].0@, es[y - 1].0@));
                lemma_lex_lt_trans(k, es[p].0@, es[y - 1].0@);
            }
        } else if x > p && y > p {
            assert(lex_lt(es[x - 1].0@, es[y - 1].0@));
        }
    }
}

/// The concatenation of two byte strings.
pub fn concat_bytes(a: &Str, b: &Str) -> (r: Str)
    ensures
        r@ == a@ + b@,
{
    let mut r = clone_bytes(a);
    let mut i: usize = 0;
    while i < b.len()
        invariant
            i <= b@.len(),
            r@ == a@ + b@.take(i as int),
        decreases b@.len() - i,
    {
        r.push(b[i]);
        proof {
            assert(r@ =~= a@ + b@.take(i as int + 1));
        }
        i = i + 1;
    }
    proof {
        assert(r@ =~= a@ + b@);
    }
    r
}

/// An owned copy of a sequence of values.  Values are plain data — for a
/// composite value this copies the handle, not the container — so the copy
/// is exact.
pub fn copy_values(l: &Vec<SourcedValue>) -> (r: Vec<SourcedValue>)
    ensures
        r@ == l@,
{
    let mut r: Vec<SourcedValue> = Vec::new();
    let mut i: usize = 0;
    while i < l.len()
        invariant
            i <= l@.len(),
            r@ == l@.take(i as int),
        decreases l@.len() - i,
    {
        r.push(l[i]);
        proof {
            assert(r@ =~= l@.take(i as int + 1));
        }
        i = i + 1;
    }
    proof {
        assert(r@ =~= l@);
    }
    r
}

impl Heap {
    /// The length of the shared list `l`.
    pub fn list_len(&self, l: ListRef) -> (r: usize)
        requires
            l < self.lists.len(),
        ensures
            r == self.lists@[l as int]@.len(),
    {
        self.lists[l].len()
    }

    /// Reads element `i` of the shared list `l`.
    pub fn list_get(&self, l: ListRef, i: usize) -> (r: SourcedValue)
        requires
            self.wf(),
            l < self.lists.len(),
            i < self.lists@[l as int]@.len(),
        ensures
            r == self.lists@[l as int]@[i as int],
            self.sv_wf(r),
    {
        proof {
            assert(self.list_wf(self.lists@[l as int]));
        }
        self.lists[l][i]
    }

    /// Mutates element `i` of the shared list `l` in place.  Every alias
    /// of the handle `l` observes the new element.
    pub fn list_set(&mut self, l: ListRef, i: usize, v: SourcedValue)
        requires
            old(self).wf(),
            l < old(self).lists.len(),
            i < old(self).lists@[l as int]@.len(),
            old(self).sv_wf(v),
        ensures
            final(self).wf(),
            final(self).extends(*old(self)),
            final(self).strs == old(self).strs,
            final(self).objects == old(self).objects,
            final(self).funcs == old(self).funcs,
            final(self).scopes == old(self).scopes,
            final(self).lists@ == old(self).lists@.update(
                l as int,
                final(self).lists@[l as int],
            ),
            final(self).lists@[l as int]@ == old(self).lists@[l as int]@.update(i as int, v),
    {
        self.lists[l][i] = v;
        proof {
            assert(self.lists@ =~= old(self).lists@.update(l as int, self.lists@[l as int]));
            assert(self.strs@.take(old(self).strs.len() as int) =~= old(self).strs@);
            assert(self.funcs@.take(old(self).funcs.len() as int) =~= old(self).funcs@);
            assert forall|j: int| 0 <= j < self.lists.len() implies self.list_wf(
                #[trigger] self.lists@[j],
            ) by {
                assert(old(self).list_wf(old(self).lists@[j]));
                if j == l as int {
                    assert forall|e: int|
                        0 <= e < self.lists@[j]@.len() implies self.sv_wf(
                        #[trigger] self.lists@[j]@[e],
                    ) by {
                        if e != i as int {
                            assert(self.lists@[j]@[e] == old(self).lists@[j]@[e]);
                        }
                    }
                }
            }
        }
    }

    /// The number of entries of the shared object `o`.
    pub fn object_len(&self, o: ObjectRef) -> (r: usize)
        requires
            o < self.objects.len(),
        ensures
            r == self.objects@[o as int]@.len(),
    {
        self.objects[o].len()
    }

    /// Reads entry `i` of the shared object `o`, in iteration order —
    /// entries are sorted strictly by key, not by insertion order.
    pub fn object_entry_at(&self, o: ObjectRef, i: usize) -> (r: (Str, SourcedValue))
        requires
            self.wf(),
            o < self.objects.len(),
            i < self.objects@[o as int]@.len(),
        ensures
            r.0@ == self.objects@[o as int]@[i as int].0@,
            r.1 == self.objects@[o as int]@[i as int].1,
            self.sv_wf(r.1),
    {
        proof {
            assert(self.obj_wf(self.objects@[o as int]));
        }
        let key = clone_bytes(&self.objects[o][i].0);
        let v = self.objects[o][i].1;
        (key, v)
    }

    /// The bytes of the string cell `s`.
    pub fn str_bytes(&self, s: StrRef) -> (r: Str)
        requires
            s < self.strs.len(),
        ensures
            r@ == self.strs@[s as int]@,
    {
        clone_bytes(&self.strs[s])
    }
}

/// Whether `a` and `b` are handles to the very same list, object or
/// function — the same shared instance, independent of contents.
pub open spec fn same_ref(a: Value, b: Value) -> bool {
    match (a, b) {
        (Value::List(i), Value::List(j)) => i == j,
        (Value::Object(i), Value::Object(j)) => i == j,
        (Value::Func(i), Value::Func(j)) => i == j,
        _ => false,
    }
}

/// Compares two values for container identity: true exactly when both are
/// handles of the same kind to the same shared instance.
pub fn ref_eq(a: &Value, b: &Value) -> (r: bool)
    ensures
        r == same_ref(*a, *b),
{
    match (a, b) {
        (Value::List(i), Value::List(j)) => i == j,
        (Value::Object(i), Value::Object(j)) => i == j,
        (Value::Func(i), Value::Func(j)) => i == j,
        _ => false,
    }
}

} // verus!
