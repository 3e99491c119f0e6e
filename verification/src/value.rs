use vstd::prelude::*;
use std::rc::Rc;
use crate::ast::{Stmt, StmtView, stmts_view, strings_view};
use crate::compiler::{Chunk, Instruction};
use crate::text::str_eq;
use crate::debug_text::{value_debug, append_value};

verus! {

/// A small map from names to values, kept as a list of distinct keys.
#[derive(Debug, PartialEq)]
pub struct Bindings<V> {
    pub(crate) entries: Vec<(String, V)>,
}

impl<V> View for Bindings<V> {
    type V = Map<Seq<char>, V>;

    closed spec fn view(&self) -> Map<Seq<char>, V> {
        Map::new(
            |k: Seq<char>| exists|i: int| 0 <= i < self.entries@.len() && self.entries@[i].0@ == k,
            |k: Seq<char>| self.entries@[choose|i: int| 0 <= i < self.entries@.len() && self.entries@[i].0@ == k].1,
        )
    }
}

impl<V> Bindings<V> {
    #[verifier::type_invariant]
    pub(crate) open spec fn keys_distinct(&self) -> bool {
        forall|i: int, j: int|
            0 <= i < self.entries@.len() && 0 <= j < self.entries@.len() && i != j
                ==> #[trigger] self.entries@[i].0@ != #[trigger] self.entries@[j].0@
    }

    pub(crate) proof fn lemma_entry(&self, i: int)
        requires
            self.keys_distinct(),
            0 <= i < self.entries@.len(),
        ensures
            self@.contains_key(self.entries@[i].0@),
            self@[self.entries@[i].0@] == self.entries@[i].1,
    {
        let k = self.entries@[i].0@;
        assert(self@.dom().contains(k));
        let j = choose|j: int| 0 <= j < self.entries@.len() && self.entries@[j].0@ == k;
        assert(j == i);
    }

    /// Every bound key is the key of an entry, and there are finitely many.
    pub(crate) proof fn lemma_keys(&self)
        ensures
            forall|k: Seq<char>| #[trigger] self@.contains_key(k) ==>
                exists|i: int| 0 <= i < self.entries@.len() && self.entries@[i].0@ == k,
            self@.dom().finite(),
    {
        let ks = Seq::new(self.entries@.len(), |i: int| self.entries@[i].0@);
        assert(self@.dom() =~= ks.to_set()) by {
            assert forall|k: Seq<char>| self@.dom().contains(k) implies ks.to_set().contains(k) by {
                let i = choose|i: int| 0 <= i < self.entries@.len() && self.entries@[i].0@ == k;
                assert(ks[i] == k);
            }
            assert forall|k: Seq<char>| ks.to_set().contains(k) implies self@.dom().contains(k) by {
                let i = choose|i: int| 0 <= i < ks.len() && ks[i] == k;
                assert(self.entries@[i].0@ == k);
            }
        }
        vstd::seq_lib::seq_to_set_is_finite(ks);
    }

    /// An empty map.
    pub fn new() -> (b: Self)
        ensures
            b@ == Map::<Seq<char>, V>::empty(),
    {
        let b = Bindings { entries: Vec::new() };
        assert(b@ =~= Map::<Seq<char>, V>::empty());
        b
    }

    fn find(&self, k: &str) -> (r: Option<usize>)
        ensures
            match r {
                Some(i) => i < self.entries@.len() && self.entries@[i as int].0@ == k@,
                None => !self@.contains_key(k@),
            },
    {
        let mut i: usize = 0;
        while i < self.entries.len()
            invariant
                i <= self.entries@.len(),
                forall|j: int| 0 <= j < i ==> self.entries@[j].0@ != k@,
            decreases self.entries@.len() - i,
        {
            if str_eq(&self.entries[i].0, k) {
                return Some(i);
            }
            i = i + 1;
        }
        None
    }

    /// The value bound to `k`.
    pub fn get(&self, k: &str) -> (r: Option<&V>)
        ensures
            match r {
                Some(v) => self@.contains_key(k@) && *v == self@[k@],
                None => !self@.contains_key(k@),
            },
    {
        match self.find(k) {
            Some(i) => {
                proof { use_type_invariant(self); self.lemma_entry(i as int); }
                Some(&self.entries[i].1)
            },
            None => None,
        }
    }

    /// `true` when `k` is bound.
    pub fn contains_key(&self, k: &str) -> (r: bool)
        ensures
            r == self@.contains_key(k@),
    {
        match self.find(k) {
            Some(i) => {
                proof { use_type_invariant(self); self.lemma_entry(i as int); }
                true
            },
            None => false,
        }
    }

    /// Unbinds `k`, handing back the value it was bound to.
    pub fn remove(&mut self, k: &str) -> (r: Option<V>)
        ensures
            final(self)@ == old(self)@.remove(k@),
            match r {
                Some(v) => old(self)@.contains_key(k@) && v == old(self)@[k@],
                None => !old(self)@.contains_key(k@),
            },
    {
        proof { use_type_invariant(&*self); }
        let ghost old_entries = self.entries@;
        let ghost old_map = self@;
        match self.find(k) {
            None => {
                proof { assert(self@ =~= old_map.remove(k@)); }
                None
            },
            Some(i) => {
                proof { self.lemma_entry(i as int); }
                let mut entries: Vec<(String, V)> = Vec::new();
                std::mem::swap(&mut entries, &mut self.entries);
                let (_, v) = entries.remove(i);
                proof {
                    assert forall|a: int, b: int|
                        0 <= a < entries@.len() && 0 <= b < entries@.len() && a != b
                            implies #[trigger] entries@[a].0@ != #[trigger] entries@[b].0@ by {
                        let oa = if a < i { a } else { a + 1 };
                        let ob = if b < i { b } else { b + 1 };
                        assert(entries@[a] == old_entries[oa]);
                        assert(entries@[b] == old_entries[ob]);
                        assert(old_entries[oa].0@ != old_entries[ob].0@);
                    }
                }
                self.entries = entries;
                proof {
                    use_type_invariant(&*self);
                    let n = self.entries@.len();
                    assert forall|key: Seq<char>| #[trigger] self@.contains_key(key) <==> old_map.remove(k@).contains_key(key) by {
                        if old_map.contains_key(key) && key != k@ {
                            let j = choose|j: int| 0 <= j < old_entries.len() && old_entries[j].0@ == key;
                            assert(j != i);
                            let nj = if j < i { j } else { j - 1 };
                            assert(self.entries@[nj].0@ == key);
                        }
                        if self@.contains_key(key) {
                            let j = choose|j: int| 0 <= j < self.entries@.len() && self.entries@[j].0@ == key;
                            let oj = if j < i { j } else { j + 1 };
                            assert(old_entries[oj].0@ == key);
                            assert(oj != i);
                        }
                    }
                    assert forall|key: Seq<char>| #[trigger] self@.contains_key(key) implies self@[key] == old_map.remove(k@)[key] by {
                        let j = choose|j: int| 0 <= j < self.entries@.len() && self.entries@[j].0@ == key;
                        self.lemma_entry(j);
                        let oj = if j < i { j } else { j + 1 };
                        assert(old_entries[oj] == self.entries@[j]);
                        assert(oj != i);
                        assert(old_map[key] == old_entries[oj].1) by {
                            let j2 = choose|j2: int| 0 <= j2 < old_entries.len() && old_entries[j2].0@ == key;
                            assert(j2 == oj);
                        }
                    }
                    assert(self@ =~= old_map.remove(k@));
                }
                Some(v)
            },
        }
    }

    /// Binds `k` to `v`, replacing any earlier binding of `k`.
    pub fn insert(&mut self, k: String, v: V)
        ensures
            final(self)@ == old(self)@.insert(k@, v),
    {
        proof { use_type_invariant(&*self); }
        let ghost old_entries = self.entries@;
        let ghost old_map = self@;
        match self.find(k.as_str()) {
            Some(i) => {
                let ghost kv = k@;
                let mut entries: Vec<(String, V)> = Vec::new();
                std::mem::swap(&mut entries, &mut self.entries);
                entries.set(i, (k, v));
                proof {
                    assert forall|a: int, b: int|
                        0 <= a < entries@.len() && 0 <= b < entries@.len() && a != b
                            implies #[trigger] entries@[a].0@ != #[trigger] entries@[b].0@ by {
                        assert(old_entries[a].0@ != old_entries[b].0@);
                    }
                }
                self.entries = entries;
                proof {
                    use_type_invariant(&*self);
                    assert forall|key: Seq<char>| #[trigger] self@.contains_key(key) <==> old_map.insert(kv, v).contains_key(key) by {
                        if old_map.contains_key(key) && key != kv {
                            let j = choose|j: int| 0 <= j < old_entries.len() && old_entries[j].0@ == key;
                            assert(self.entries@[j].0@ == key);
                        }
                        if self@.contains_key(key) {
                            let j = choose|j: int| 0 <= j < self.entries@.len() && self.entries@[j].0@ == key;
                            if j != i { assert(old_entries[j].0@ == key); }
                        }
                        assert(self.entries@[i as int].0@ == kv);
                    }
                    assert forall|key: Seq<char>| #[trigger] self@.contains_key(key) implies self@[key] == old_map.insert(kv, v)[key] by {
                        let j = choose|j: int| 0 <= j < self.entries@.len() && self.entries@[j].0@ == key;
                        self.lemma_entry(j);
                        if key != kv {
                            assert(j != i);
                            assert(old_entries[j].0@ == key);
                            assert(old_map[key] == old_entries[j].1) by {
                                let j2 = choose|j2: int| 0 <= j2 < old_entries.len() && old_entries[j2].0@ == key;
                                assert(j2 == j);
                            }
                        } else {
                            assert(j == i);
                        }
                    }
                    assert(self@ =~= old_map.insert(kv, v));
                }
            },
            None => {
                let ghost kv = k@;
                let mut entries: Vec<(String, V)> = Vec::new();
                std::mem::swap(&mut entries, &mut self.entries);
                entries.push((k, v));
                proof {
                    assert forall|a: int, b: int|
                        0 <= a < entries@.len() && 0 <= b < entries@.len() && a != b
                            implies #[trigger] entries@[a].0@ != #[trigger] entries@[b].0@ by {
                        if a < old_entries.len() && b < old_entries.len() {
                            assert(old_entries[a].0@ != old_entries[b].0@);
                        } else if a < old_entries.len() {
                            assert(old_map.contains_key(old_entries[a].0@));
                        } else {
                            assert(old_map.contains_key(old_entries[b].0@));
                        }
                    }
                }
                self.entries = entries;
                proof {
                    use_type_invariant(&*self);
                    let n = old_entries.len() as int;
                    assert forall|key: Seq<char>| #[trigger] self@.contains_key(key) <==> old_map.insert(kv, v).contains_key(key) by {
                        if old_map.contains_key(key) {
                            let j = choose|j: int| 0 <= j < old_entries.len() && old_entries[j].0@ == key;
                            assert(self.entries@[j].0@ == key);
                        }
                        if self@.contains_key(key) {
                            let j = choose|j: int| 0 <= j < self.entries@.len() && self.entries@[j].0@ == key;
                            if j != n { assert(old_entries[j].0@ == key); }
                        }
                        assert(self.entries@[n].0@ == kv);
                    }
                    assert forall|key: Seq<char>| #[trigger] self@.contains_key(key) implies self@[key] == old_map.insert(kv, v)[key] by {
                        let j = choose|j: int| 0 <= j < self.entries@.len() && self.entries@[j].0@ == key;
                        self.lemma_entry(j);
                        if key != kv {
                            assert(j != n);
                            assert(old_entries[j].0@ == key);
                            assert(old_map[key] == old_entries[j].1) by {
                                let j2 = choose|j2: int| 0 <= j2 < old_entries.len() && old_entries[j2].0@ == key;
                                assert(j2 == j);
                            }
                        } else {
                            assert(j == n);
                        }
                    }
                    assert(self@ =~= old_map.insert(kv, v));
                }
            },
        }
    }
}

} // verus!

verus! {

/// The mathematical view of a value. `Other` never stands for a value; it
/// fills places that are out of range.
pub enum ValueView {
    Number(u64),
    Boolean(bool),
    String(Seq<char>),
    NativeFunction { name: Seq<char>, arity: usize, id: usize },
    Function { name: Seq<char>, params: Seq<Seq<char>>, body: Seq<StmtView> },
    CompiledFunction { name: Seq<char>, arity: usize, chunk: ChunkView, module: Option<Seq<char>> },
    Namespace(Map<Seq<char>, ValueView>),
    Other,
}

/// The mathematical view of a chunk.
pub struct ChunkView {
    pub code: Seq<Instruction>,
    pub constants: Seq<ValueView>,
}

pub open spec fn opt_string_view(o: Option<String>) -> Option<Seq<char>> {
    match o {
        Some(s) => Some(s@),
        None => None,
    }
}

pub open spec fn value_view(v: Value) -> ValueView
    decreases v,
{
    match v {
        Value::Number(n) => ValueView::Number(n),
        Value::Boolean(b) => ValueView::Boolean(b),
        Value::String(s) => ValueView::String(s@),
        Value::NativeFunction { name, arity, id } => ValueView::NativeFunction { name: name@, arity, id },
        Value::Function { name, params, body } => ValueView::Function {
            name: name@,
            params: strings_view(params@),
            body: stmts_view(body@),
        },
        Value::CompiledFunction { name, arity, chunk, module } => ValueView::CompiledFunction {
            name: name@,
            arity,
            chunk: ChunkView {
                code: chunk.code@,
                constants: Seq::new(chunk.constants@.len(), |i: int|
                    if 0 <= i < chunk.constants@.len() {
                        proof { assert(decreases_to!(chunk.constants => chunk.constants@[i])); }
                        value_view(chunk.constants@[i])
                    } else {
                        ValueView::Other
                    }),
            },
            module: opt_string_view(module),
        },
        Value::Namespace(b) => ValueView::Namespace(bindings_view(*b)),
    }
}

/// The views of the values bound in a namespace.
pub closed spec fn bindings_view(b: Bindings<Value>) -> Map<Seq<char>, ValueView>
    decreases b,
{
    Map::new(
        |k: Seq<char>| exists|i: int| 0 <= i < b.entries@.len() && b.entries@[i].0@ == k,
        |k: Seq<char>| {
            let i = choose|i: int| 0 <= i < b.entries@.len() && b.entries@[i].0@ == k;
            if 0 <= i < b.entries@.len() {
                proof { assert(decreases_to!(b.entries => b.entries@[i])); }
                value_view(b.entries@[i].1)
            } else {
                ValueView::Other
            }
        },
    )
}

/// The views of the values of a map.
pub open spec fn deep(m: Map<Seq<char>, Value>) -> Map<Seq<char>, ValueView> {
    m.map_values(|v: Value| value_view(v))
}

/// The chunk in the view of a compiled function is the view of its chunk.
pub proof fn lemma_compiled_value(v: Value)
    ensures
        v matches Value::CompiledFunction { chunk, .. } ==> value_view(v)->CompiledFunction_chunk == chunk_view(*chunk),
{
    if let Value::CompiledFunction { chunk, .. } = v {
        assert(value_view(v)->CompiledFunction_chunk.constants =~= values_view(chunk.constants@));
    }
}

/// The view of a namespace value is the view of its bindings.
pub proof fn lemma_namespace_value(v: Value)
    ensures
        v matches Value::Namespace(b) ==> value_view(v) == ValueView::Namespace(deep(b@)),
{
    if let Value::Namespace(b) = v {
        assert(bindings_view(*b) =~= deep(b@));
    }
}

/// The view of a namespace is the view of its bindings.
pub proof fn lemma_namespace_view(b: Bindings<Value>)
    ensures
        value_view(Value::Namespace(Rc::new(b))) == ValueView::Namespace(deep(b@)),
{
    assert(bindings_view(b) =~= deep(b@));
}

/// The views of a sequence of values.
pub open spec fn values_view(vs: Seq<Value>) -> Seq<ValueView> {
    Seq::new(vs.len(), |i: int| value_view(vs[i]))
}

/// The view of a chunk.
pub open spec fn chunk_view(c: Chunk) -> ChunkView {
    ChunkView { code: c.code@, constants: values_view(c.constants@) }
}

/// A runtime value.
#[derive(Debug, PartialEq)]
pub enum Value {
    /// A number: the bits of an IEEE-754 `f64`.
    Number(u64),
    /// `true` or `false`.
    Boolean(bool),
    /// A string.
    String(String),
    /// A function supplied by the host; `id` names it to the host.
    NativeFunction { name: String, arity: usize, id: usize },
    /// A function of the tree-walking interpreter.
    Function { name: String, params: Rc<Vec<String>>, body: Rc<Vec<Stmt>> },
    /// A compiled function.
    CompiledFunction { name: String, arity: usize, chunk: Rc<Chunk>, module: Option<String> },
    /// A namespace of named values.
    Namespace(Rc<Bindings<Value>>),
}


impl Bindings<Value> {
    /// A second map with the same bindings.
    pub fn duplicate(&self) -> (r: Bindings<Value>)
        ensures
            r@ == self@,
    {
        proof { use_type_invariant(self); }
        let mut entries: Vec<(String, Value)> = Vec::new();
        let mut i: usize = 0;
        while i < self.entries.len()
            invariant
                i <= self.entries@.len(),
                entries@ == self.entries@.subrange(0, i as int),
            decreases self.entries@.len() - i,
        {
            let k = self.entries[i].0.clone();
            let v = self.entries[i].1.copy();
            entries.push((k, v));
            i = i + 1;
            assert(entries@ =~= self.entries@.subrange(0, i as int));
        }
        assert(entries@ =~= self.entries@);
        let r = Bindings { entries };
        assert(r@ =~= self@);
        r
    }
}

/// `f` renders every number, and renders equal numbers alike.
pub open spec fn is_renderer<F: Fn(u64) -> String>(f: F) -> bool {
    &&& forall|n: u64| call_requires(f, (n,))
    &&& forall|n: u64, a: String, b: String|
        #![trigger call_ensures(f, (n,), a), call_ensures(f, (n,), b)]
        call_ensures(f, (n,), a) && call_ensures(f, (n,), b) ==> a@ == b@
}

/// The text `f` gives for the number with bits `n`.
pub open spec fn rendered<F: Fn(u64) -> String>(f: F, n: u64) -> Seq<char> {
    (choose|s: String| call_ensures(f, (n,), s))@
}

/// `rendered` as a function of the number.
pub open spec fn renderer_of<F: Fn(u64) -> String>(f: F) -> spec_fn(u64) -> Seq<char> {
    |n: u64| rendered(f, n)
}

/// Renders the number `n` with `f`.
pub fn render<F: Fn(u64) -> String>(f: &F, n: u64) -> (r: String)
    requires
        is_renderer(*f),
    ensures
        r@ == rendered(*f, n),
{
    let r = f(n);
    proof {
        let c = choose|s: String| call_ensures(*f, (n,), s);
        assert(call_ensures(*f, (n,), c));
    }
    r
}

/// What `print` shows for a value; numbers are rendered by `show`.
pub open spec fn display_view(v: ValueView, show: spec_fn(u64) -> Seq<char>) -> Seq<char> {
    match v {
        ValueView::Number(n) => show(n),
        ValueView::Boolean(b) => if b { "true"@ } else { "false"@ },
        ValueView::String(s) => "\""@ + s + "\""@,
        ValueView::NativeFunction { name, .. } => "<native fn "@ + name + ">"@,
        ValueView::Function { name, .. } => "<fn "@ + name + ">"@,
        ValueView::CompiledFunction { name, .. } => "<fn "@ + name + ">"@,
        ValueView::Namespace(_) => "<namespace>"@,
        ValueView::Other => Seq::empty(),
    }
}

/// The debugging text of a value, as `{:?}` writes it; numbers are rendered
/// by `dbg`.
pub open spec fn debug_view(v: ValueView, dbg: spec_fn(u64) -> Seq<char>) -> Seq<char> {
    value_debug(v, dbg)
}

impl Value {
    /// A second value equal to this one (functions and namespaces are shared).
    pub fn copy(&self) -> (r: Value)
        ensures
            r == *self,
    {
        match self {
            Value::Number(n) => Value::Number(*n),
            Value::Boolean(b) => Value::Boolean(*b),
            Value::String(s) => Value::String(s.clone()),
            Value::NativeFunction { name, arity, id } => Value::NativeFunction { name: name.clone(), arity: *arity, id: *id },
            Value::Function { name, params, body } =>
                Value::Function { name: name.clone(), params: Rc::clone(params), body: Rc::clone(body) },
            Value::CompiledFunction { name, arity, chunk, module } => {
                let m = match module {
                    Some(p) => Some(p.clone()),
                    None => None,
                };
                Value::CompiledFunction { name: name.clone(), arity: *arity, chunk: Rc::clone(chunk), module: m }
            },
            Value::Namespace(b) => Value::Namespace(Rc::clone(b)),
        }
    }

    /// What `print` shows for this value, e.g. `"text"` or `<fn add>`.
    pub fn display<F: Fn(u64) -> String>(&self, show: &F) -> (r: String)
        requires
            is_renderer(*show),
        ensures
            r@ == display_view(value_view(*self), renderer_of(*show)),
    {
        match self {
            Value::Number(n) => render(show, *n),
            Value::Boolean(b) => if *b { String::from_str("true") } else { String::from_str("false") },
            Value::String(s) => {
                let mut r = String::from_str("\"");
                r.append(s.as_str());
                r.append("\"");
                r
            },
            Value::NativeFunction { name, .. } => {
                let mut r = String::from_str("<native fn ");
                r.append(name.as_str());
                r.append(">");
                r
            },
            Value::Function { name, .. } => {
                let mut r = String::from_str("<fn ");
                r.append(name.as_str());
                r.append(">");
                r
            },
            Value::CompiledFunction { name, .. } => {
                let mut r = String::from_str("<fn ");
                r.append(name.as_str());
                r.append(">");
                r
            },
            Value::Namespace(_) => String::from_str("<namespace>"),
        }
    }

    /// The debugging text of this value, e.g. `Number(2.5)`, `String("a")` or
    /// `Function { name: "f", params: ["x"], body: [Return(Identifier("x"))] }`.
    pub fn debug<F: Fn(u64) -> String>(&self, dbg: &F) -> (r: String)
        requires
            is_renderer(*dbg),
        ensures
            r@ == debug_view(value_view(*self), renderer_of(*dbg)),
    {
        let mut r = String::new();
        append_value(&mut r, self, dbg);
        assert(r@ =~= debug_view(value_view(*self), renderer_of(*dbg)));
        r
    }
}

} // verus!
