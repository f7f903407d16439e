//! Lowering of a syntax tree into a generic structured value, keeping only
//! what a literal can express.
use crate::syntax::{Elem, Expr, Prop, PropKey, Script, Sign, Stmt};
use crate::value::{entry_model, entries_model, items_model, neg_bits, JVal, Value, SIGN_BIT};
use vstd::prelude::*;

verus! {

broadcast use vstd::std_specs::vec::group_vec_axioms;

/// The text a property key stands for.
pub open spec fn key_text(k: PropKey) -> Seq<char> {
    match k {
        PropKey::Str(s) => s@,
        PropKey::Ident(s) => s@,
        PropKey::Num(s) => s@,
    }
}

/// Whether an object has an entry under `k`.
pub open spec fn has_key(m: Seq<(Seq<char>, JVal)>, k: Seq<char>) -> bool {
    exists|i: int| 0 <= i < m.len() && m[i].0 == k
}

/// Whether no two entries of an object share a key.
pub open spec fn keys_unique(m: Seq<(Seq<char>, JVal)>) -> bool {
    forall|i: int, j: int| 0 <= i < j < m.len() ==> m[i].0 != m[j].0
}

/// Whether `i` is the first index of an object's entry under `k`.
pub open spec fn first_index(m: Seq<(Seq<char>, JVal)>, k: Seq<char>, i: int) -> bool {
    &&& 0 <= i < m.len()
    &&& m[i].0 == k
    &&& forall|j: int| 0 <= j < i ==> m[j].0 != k
}

/// The value under `k` in an object: that of its first entry with that key.
pub open spec fn get(m: Seq<(Seq<char>, JVal)>, k: Seq<char>) -> Option<JVal> {
    if has_key(m, k) {
        Some(m[choose|i: int| first_index(m, k, i)].1)
    } else {
        None
    }
}

/// Writes `v` under `k`: an existing entry keeps its place and takes the new
/// value, a new key goes to the end.
pub open spec fn obj_insert(m: Seq<(Seq<char>, JVal)>, k: Seq<char>, v: JVal) -> Seq<
    (Seq<char>, JVal),
> {
    if has_key(m, k) {
        m.update(choose|i: int| 0 <= i < m.len() && m[i].0 == k, (k, v))
    } else {
        m.push((k, v))
    }
}

/// What an expression lowers to, if anything.
pub open spec fn lower_spec(e: Expr) -> Option<JVal>
    decreases e, 0int,
{
    match e {
        Expr::Object(ps) => Some(JVal::Obj(lower_props(ps, ps.len() as int))),
        Expr::Array(es) => Some(JVal::Arr(lower_elems(es, es.len() as int))),
        Expr::Str(s) => Some(JVal::Str(s@)),
        Expr::Num(n) => Some(JVal::Num(n)),
        Expr::Bool(b) => Some(JVal::Bool(b)),
        Expr::Null => Some(JVal::Null),
        Expr::Unary(sign, a) => match lower_spec(*a) {
            Some(JVal::Num(n)) => Some(
                JVal::Num(
                    if sign == Sign::Minus {
                        neg_bits(n)
                    } else {
                        n
                    },
                ),
            ),
            _ => None,
        },
        Expr::Unsupported => None,
    }
}

/// The object built from the first `n` properties.
pub open spec fn lower_props(ps: Vec<Prop>, n: int) -> Seq<(Seq<char>, JVal)>
    decreases ps, n,
{
    if n <= 0 || n > ps.len() {
        Seq::empty()
    } else {
        let m = lower_props(ps, n - 1);
        match ps@[n - 1] {
            Prop::KeyValue(k, e) => match lower_spec(e) {
                Some(v) => obj_insert(m, key_text(k), v),
                None => m,
            },
            Prop::Unsupported => m,
        }
    }
}

/// The array built from the first `n` slots.
pub open spec fn lower_elems(es: Vec<Elem>, n: int) -> Seq<JVal>
    decreases es, n,
{
    if n <= 0 || n > es.len() {
        Seq::empty()
    } else {
        let a = lower_elems(es, n - 1);
        match es@[n - 1] {
            Elem::Item(e) => match lower_spec(e) {
                Some(v) => a.push(v),
                None => a,
            },
            _ => a,
        }
    }
}


/// The model of an optional value.
pub open spec fn opt_model(r: Option<Value>) -> Option<JVal> {
    match r {
        Some(v) => Some(v.model()),
        None => None,
    }
}

/// Writes `v` under `k` in an object's entries.
fn object_insert(m: &mut Vec<(String, Value)>, k: String, v: Value)
    requires
        keys_unique(entries_model(*old(m))),
    ensures
        entries_model(*final(m)) == obj_insert(entries_model(*old(m)), k@, v.model()),
        keys_unique(entries_model(*final(m))),
{
    let ghost before = entries_model(*m);
    let ghost vm = v.model();
    let ghost kk = k@;
    let mut i: usize = 0;
    while i < m.len()
        invariant
            i <= m.len(),
            *m == *old(m),
            before == entries_model(*m),
            keys_unique(before),
            forall|j: int| 0 <= j < i ==> before[j].0 != kk,
            kk == k@,
            vm == v.model(),
        decreases m.len() - i,
    {
        if m[i].0 == k {
            proof {
                assert(before[i as int] == entry_model(m@[i as int]));
                assert(before[i as int].0 == kk);
                assert(has_key(before, kk));
                let c = choose|j: int| 0 <= j < before.len() && before[j].0 == kk;
                assert(c == i);
            }
            let ghost pair = (k, v);
            let ghost om = *m;
            m.set(i, (k, v));
            proof {
                assert(m@ == om@.update(i as int, pair));
                assert(pair.1 == v);
                assert(entry_model(pair) == (pair.0@, pair.1.model()));
                assert forall|j: int| 0 <= j < m.len() implies #[trigger] entries_model(*m)[j]
                    == before.update(i as int, (kk, vm))[j] by {
                    if j != i {
                        assert(m@[j] == om@[j]);
                        assert(entries_model(om)[j] == entry_model(om@[j]));
                    } else {
                        assert(m@[j] == pair);
                        assert(entries_model(*m)[j] == entry_model(pair));
                        assert(entry_model(pair) == (kk, vm));
                    }
                }
                assert(entries_model(*m) =~= before.update(i as int, (kk, vm)));
            }
            return;
        }
        assert(before[i as int] == entry_model(m@[i as int]));
        i += 1;
    }
    m.push((k, v));
    proof {
        assert(!has_key(before, kk));
        assert(entries_model(*m) =~= before.push((kk, vm)));
    }
}

fn key_string(k: &PropKey) -> (r: String)
    ensures
        r@ == key_text(*k),
{
    match k {
        PropKey::Str(s) => s.clone(),
        PropKey::Ident(s) => s.clone(),
        PropKey::Num(s) => s.clone(),
    }
}

/// Lowers an expression: literals keep their value, objects and arrays keep
/// what of them lowers, a sign applies to a number only, the rest is dropped.
pub fn lower_expr(e: &Expr) -> (r: Option<Value>)
    ensures
        opt_model(r) == lower_spec(*e),
    decreases e,
{
    match e {
        Expr::Object(ps) => {
            let mut m: Vec<(String, Value)> = Vec::new();
            let mut i: usize = 0;
            proof {
                assert(entries_model(m) =~= Seq::<(Seq<char>, JVal)>::empty());
            }
            while i < ps.len()
                invariant
                    i <= ps.len(),
                    *e == Expr::Object(*ps),
                    entries_model(m) == lower_props(*ps, i as int),
                    keys_unique(entries_model(m)),
                decreases ps.len() - i,
            {
                match &ps[i] {
                    Prop::KeyValue(k, x) => {
                        proof {
                            assert(*e == Expr::Object(*ps));
                            assert(decreases_to!(*e => (*e)->Object_0));
                            assert(decreases_to!(ps => ps[i as int]));
                            assert(decreases_to!(ps[i as int] => *x));
                        }
                        match lower_expr(x) {
                            Some(v) => {
                                let ks = key_string(k);
                                object_insert(&mut m, ks, v);
                            },
                            None => {},
                        }
                    },
                    Prop::Unsupported => {},
                }
                i += 1;
            }
            Some(Value::Object(m))
        },
        Expr::Array(es) => {
            let mut a: Vec<Value> = Vec::new();
            let mut i: usize = 0;
            proof {
                assert(items_model(a) =~= Seq::<JVal>::empty());
            }
            while i < es.len()
                invariant
                    i <= es.len(),
                    *e == Expr::Array(*es),
                    items_model(a) == lower_elems(*es, i as int),
                decreases es.len() - i,
            {
                match &es[i] {
                    Elem::Item(x) => {
                        proof {
                            assert(*e == Expr::Array(*es));
                            assert(decreases_to!(*e => (*e)->Array_0));
                            assert(decreases_to!(es => es[i as int]));
                            assert(decreases_to!(es[i as int] => *x));
                        }
                        match lower_expr(x) {
                            Some(v) => {
                                let ghost before = items_model(a);
                                let ghost vm = v.model();
                                a.push(v);
                                proof {
                                    assert(items_model(a) =~= before.push(vm));
                                }
                            },
                            None => {},
                        }
                    },
                    _ => {},
                }
                i += 1;
            }
            Some(Value::Array(a))
        },
        Expr::Str(s) => Some(Value::Str(s.clone())),
        Expr::Num(n) => Some(Value::Number(*n)),
        Expr::Bool(b) => Some(Value::Bool(*b)),
        Expr::Null => Some(Value::Null),
        Expr::Unary(sign, a) => match lower_expr(a) {
            Some(Value::Number(n)) => match sign {
                Sign::Minus => Some(Value::Number(n ^ SIGN_BIT)),
                Sign::Plus => Some(Value::Number(n)),
            },
            _ => None,
        },
        Expr::Unsupported => None,
    }
}


/// The values of a declaration's first `n` declarators that have an
/// initializer which lowers.
pub open spec fn decl_values(ds: Vec<Option<Expr>>, n: int) -> Seq<JVal>
    decreases n,
{
    if n <= 0 || n > ds.len() {
        Seq::empty()
    } else {
        let a = decl_values(ds, n - 1);
        match ds@[n - 1] {
            Some(e) => match lower_spec(e) {
                Some(v) => a.push(v),
                None => a,
            },
            None => a,
        }
    }
}

/// The values a statement contributes: only variable declarations count.
pub open spec fn stmt_values(s: Stmt) -> Seq<JVal> {
    match s {
        Stmt::Var(ds) => decl_values(ds, ds.len() as int),
        Stmt::Other => Seq::empty(),
    }
}

/// The values of the first `n` statements, in source order.
pub open spec fn script_values(body: Seq<Stmt>, n: int) -> Seq<JVal>
    decreases n,
{
    if n <= 0 || n > body.len() {
        Seq::empty()
    } else {
        script_values(body, n - 1) + stmt_values(body[n - 1])
    }
}

/// No value, the only value, or an array of all of them.
pub open spec fn collapse(vs: Seq<JVal>) -> Option<JVal> {
    if vs.len() == 0 {
        None
    } else if vs.len() == 1 {
        Some(vs[0])
    } else {
        Some(JVal::Arr(vs))
    }
}

/// What a whole script lowers to.
pub open spec fn lower_script_spec(s: Script) -> Option<JVal> {
    collapse(script_values(s.body@, s.body.len() as int))
}

/// Lowers a script: the values of all initialized declarators of its variable
/// declarations, collapsed to none, the single one, or an array.
pub fn lower_script(script: &Script) -> (r: Option<Value>)
    ensures
        opt_model(r) == lower_script_spec(*script),
{
    let mut vals: Vec<Value> = Vec::new();
    let mut i: usize = 0;
    proof {
        assert(items_model(vals) =~= Seq::<JVal>::empty());
    }
    while i < script.body.len()
        invariant
            i <= script.body.len(),
            items_model(vals) == script_values(script.body@, i as int),
        decreases script.body.len() - i,
    {
        match &script.body[i] {
            Stmt::Var(ds) => {
                let mut j: usize = 0;
                let ghost base = items_model(vals);
                proof {
                    assert(base =~= base + decl_values(*ds, 0));
                }
                while j < ds.len()
                    invariant
                        j <= ds.len(),
                        items_model(vals) == base + decl_values(*ds, j as int),
                    decreases ds.len() - j,
                {
                    match &ds[j] {
                        Some(x) => match lower_expr(x) {
                            Some(v) => {
                                let ghost before = items_model(vals);
                                let ghost vm = v.model();
                                vals.push(v);
                                proof {
                                    assert(items_model(vals) =~= before.push(vm));
                                    assert(base + decl_values(*ds, j + 1) =~= (base + decl_values(
                                        *ds,
                                        j as int,
                                    )).push(vm));
                                }
                            },
                            None => {},
                        },
                        None => {},
                    }
                    j += 1;
                }
            },
            Stmt::Other => {
                proof {
                    assert(items_model(vals) =~= items_model(vals) + Seq::<JVal>::empty());
                }
            },
        }
        i += 1;
    }
    if vals.len() == 0 {
        None
    } else if vals.len() == 1 {
        let ghost m = items_model(vals);
        let v = vals.pop().unwrap();
        proof {
            assert(v.model() == m[0]);
        }
        Some(v)
    } else {
        Some(Value::Array(vals))
    }
}

/// The two ways a source text can fail to give a value.
#[derive(Debug, Clone, Copy, PartialEq, Eq)]
pub enum ErrorKind {
    /// The text is not a script at all.
    Syntax,
    /// The script holds no value that lowers.
    NothingFound,
}

/// Why a source text gave no value, with a message for people.
#[derive(Debug)]
pub struct ParseError {
    kind: ErrorKind,
    message: String,
}

impl ParseError {
    /// A syntax error, with the parser's message.
    pub fn syntax(message: String) -> (r: ParseError)
        ensures
            r.kind() == ErrorKind::Syntax,
            r.message_text() == message@,
    {
        ParseError { kind: ErrorKind::Syntax, message }
    }

    pub closed spec fn kind(&self) -> ErrorKind {
        self.kind
    }

    pub closed spec fn message_text(&self) -> Seq<char> {
        self.message@
    }

    pub fn error_kind(&self) -> (r: ErrorKind)
        ensures
            r == self.kind(),
    {
        self.kind
    }

    pub fn message(&self) -> (r: &String)
        ensures
            r@ == self.message_text(),
    {
        &self.message
    }
}

/// The value of a parsed source: a parser's error passes through untouched,
/// a script that holds no value is the `NothingFound` error.
pub fn lower_parsed(parsed: Result<Script, ParseError>) -> (r: Result<Value, ParseError>)
    ensures
        parsed is Err ==> r is Err && r->Err_0 == parsed->Err_0,
        parsed is Ok ==> match r {
            Ok(v) => lower_script_spec(parsed->Ok_0) == Some(v.model()),
            Err(e) => lower_script_spec(parsed->Ok_0) is None && e.kind()
                == ErrorKind::NothingFound,
        },
{
    match parsed {
        Err(e) => Err(e),
        Ok(script) => match lower_script(&script) {
            Some(v) => Ok(v),
            None => Err(
                ParseError {
                    kind: ErrorKind::NothingFound,
                    message: "not find any value in script".to_string(),
                },
            ),
        },
    }
}


/// The value of the last of the first `n` properties with key `k` whose
/// value lowers, lowered.
pub open spec fn last_value(ps: Vec<Prop>, n: int, k: Seq<char>) -> Option<JVal>
    decreases n,
{
    if n <= 0 || n > ps.len() {
        None
    } else {
        match ps@[n - 1] {
            Prop::KeyValue(kk, e) => if key_text(kk) == k && lower_spec(e) is Some {
                lower_spec(e)
            } else {
                last_value(ps, n - 1, k)
            },
            Prop::Unsupported => last_value(ps, n - 1, k),
        }
    }
}

proof fn lemma_first_index_unique(m: Seq<(Seq<char>, JVal)>, k: Seq<char>, i: int, j: int)
    requires
        first_index(m, k, i),
        first_index(m, k, j),
    ensures
        i == j,
{
}

proof fn lemma_get_at(m: Seq<(Seq<char>, JVal)>, k: Seq<char>, i: int)
    requires
        keys_unique(m),
        0 <= i < m.len(),
        m[i].0 == k,
    ensures
        get(m, k) == Some(m[i].1),
{
    assert(first_index(m, k, i));
    assert(has_key(m, k));
    let c = choose|c: int| first_index(m, k, c);
    lemma_first_index_unique(m, k, c, i);
}

proof fn lemma_get_none(m: Seq<(Seq<char>, JVal)>, k: Seq<char>)
    requires
        !has_key(m, k),
    ensures
        get(m, k) is None,
{
}

proof fn lemma_insert(m: Seq<(Seq<char>, JVal)>, k2: Seq<char>, v: JVal, k: Seq<char>)
    requires
        keys_unique(m),
    ensures
        keys_unique(obj_insert(m, k2, v)),
        get(obj_insert(m, k2, v), k) == if k == k2 {
            Some(v)
        } else {
            get(m, k)
        },
{
    let m2 = obj_insert(m, k2, v);
    if has_key(m, k2) {
        let c = choose|i: int| 0 <= i < m.len() && m[i].0 == k2;
        assert(m2 == m.update(c, (k2, v)));
        assert(keys_unique(m2));
        if k == k2 {
            lemma_get_at(m2, k, c);
        } else if has_key(m, k) {
            let d = choose|i: int| 0 <= i < m.len() && m[i].0 == k;
            lemma_get_at(m, k, d);
            lemma_get_at(m2, k, d);
        } else {
            assert(!has_key(m2, k));
        }
    } else {
        assert(m2 == m.push((k2, v)));
        assert(keys_unique(m2));
        if k == k2 {
            lemma_get_at(m2, k, m.len() as int);
        } else if has_key(m, k) {
            let d = choose|i: int| 0 <= i < m.len() && m[i].0 == k;
            lemma_get_at(m, k, d);
            lemma_get_at(m2, k, d);
        } else {
            assert(!has_key(m2, k));
        }
    }
}

/// An object literal's keys stay unique once lowered, and under each key
/// stands the value of the last property with that key whose value lowers:
/// a later duplicate overwrites an earlier one.
pub proof fn law_last_value_wins(ps: Vec<Prop>, n: int, k: Seq<char>)
    requires
        0 <= n <= ps.len(),
    ensures
        keys_unique(lower_props(ps, n)),
        get(lower_props(ps, n), k) == last_value(ps, n, k),
    decreases n,
{
    if n > 0 {
        law_last_value_wins(ps, n - 1, k);
        let m = lower_props(ps, n - 1);
        match ps@[n - 1] {
            Prop::KeyValue(kk, e) => match lower_spec(e) {
                Some(v) => lemma_insert(m, key_text(kk), v, k),
                None => {},
            },
            Prop::Unsupported => {},
        }
    }
}

/// A property whose value does not lower leaves no trace: a key is in the
/// lowered object exactly when some property with that key has a value that
/// lowers.
pub proof fn law_unsupported_absorbed(ps: Vec<Prop>, n: int, k: Seq<char>)
    requires
        0 <= n <= ps.len(),
    ensures
        has_key(lower_props(ps, n), k) <==> last_value(ps, n, k) is Some,
{
    law_last_value_wins(ps, n, k);
    let m = lower_props(ps, n);
    if has_key(m, k) {
        let d = choose|i: int| 0 <= i < m.len() && m[i].0 == k;
        lemma_get_at(m, k, d);
    } else {
        lemma_get_none(m, k);
    }
}


/// Whether every object in a value has unique keys.
pub open spec fn well_formed(v: JVal) -> bool
    decreases v,
{
    match v {
        JVal::Arr(a) => forall|i: int| 0 <= i < a.len() ==> well_formed(#[trigger] a[i]),
        JVal::Obj(m) => keys_unique(m) && forall|i: int|
            0 <= i < m.len() ==> well_formed(#[trigger] m[i].1),
        _ => true,
    }
}

proof fn lemma_props_prefix(ps_a: Vec<Prop>, ps_b: Vec<Prop>, n: int)
    requires
        0 <= n <= ps_a.len(),
        n <= ps_b.len(),
        forall|j: int| 0 <= j < n ==> ps_a@[j] == ps_b@[j],
    ensures
        lower_props(ps_a, n) == lower_props(ps_b, n),
    decreases n,
{
    if n > 0 {
        lemma_props_prefix(ps_a, ps_b, n - 1);
    }
}

proof fn lemma_elems_prefix(es_a: Vec<Elem>, es_b: Vec<Elem>, n: int)
    requires
        0 <= n <= es_a.len(),
        n <= es_b.len(),
        forall|j: int| 0 <= j < n ==> es_a@[j] == es_b@[j],
    ensures
        lower_elems(es_a, n) == lower_elems(es_b, n),
    decreases n,
{
    if n > 0 {
        lemma_elems_prefix(es_a, es_b, n - 1);
    }
}

impl Value {
    /// The literal that writes this value: lowering it gives the value back.
    pub fn to_expr(&self) -> (r: Expr)
        requires
            well_formed(self.model()),
        ensures
            lower_spec(r) == Some(self.model()),
        decreases self,
    {
        match self {
            Value::Null => Expr::Null,
            Value::Bool(b) => Expr::Bool(*b),
            Value::Number(n) => Expr::Num(*n),
            Value::Str(s) => Expr::Str(s.clone()),
            Value::Array(a) => {
                let ghost am = items_model(*a);
                let mut es: Vec<Elem> = Vec::new();
                let mut i: usize = 0;
                while i < a.len()
                    invariant
                        i <= a.len(),
                        *self == Value::Array(*a),
                        am == items_model(*a),
                        well_formed(JVal::Arr(am)),
                        es.len() == i,
                        lower_elems(es, i as int) == am.take(i as int),
                    decreases a.len() - i,
                {
                    proof {
                        assert(decreases_to!(*self => (*self)->Array_0));
                        assert(decreases_to!(a => a[i as int]));
                        assert(am[i as int] == a@[i as int].model());
                        let w = JVal::Arr(am);
                        assert(w->Arr_0 == am);
                        assert(well_formed(w));
                        assert(forall|j: int| 0 <= j < am.len() ==> well_formed(#[trigger] am[j]));
                        assert(well_formed(am[i as int]));
                    }
                    let x = a[i].to_expr();
                    let ghost old_es = es;
                    es.push(Elem::Item(x));
                    proof {
                        lemma_elems_prefix(old_es, es, i as int);
                        assert(am.take(i + 1) =~= am.take(i as int).push(am[i as int]));
                    }
                    i += 1;
                }
                proof {
                    assert(am.take(a.len() as int) =~= am);
                }
                Expr::Array(es)
            },
            Value::Object(m) => {
                let ghost mm = entries_model(*m);
                let mut ps: Vec<Prop> = Vec::new();
                let mut i: usize = 0;
                while i < m.len()
                    invariant
                        i <= m.len(),
                        *self == Value::Object(*m),
                        mm == entries_model(*m),
                        well_formed(JVal::Obj(mm)),
                        ps.len() == i,
                        lower_props(ps, i as int) == mm.take(i as int),
                    decreases m.len() - i,
                {
                    proof {
                        assert(decreases_to!(*self => (*self)->Object_0));
                        assert(decreases_to!(m => m[i as int]));
                        assert(decreases_to!(m[i as int] => m[i as int].1));
                        assert(mm[i as int] == entry_model(m@[i as int]));
                        assert(well_formed(mm[i as int].1));
                    }
                    let x = m[i].1.to_expr();
                    let k = m[i].0.clone();
                    let ghost old_ps = ps;
                    ps.push(Prop::KeyValue(PropKey::Str(k), x));
                    proof {
                        lemma_props_prefix(old_ps, ps, i as int);
                        let t = mm.take(i as int);
                        assert(!has_key(t, mm[i as int].0)) by {
                            if has_key(t, mm[i as int].0) {
                                let d = choose|j: int| 0 <= j < t.len() && t[j].0 == mm[i as int].0;
                                assert(mm[d].0 == mm[i as int].0);
                            }
                        }
                        assert(mm.take(i + 1) =~= t.push(mm[i as int]));
                    }
                    i += 1;
                }
                proof {
                    assert(mm.take(m.len() as int) =~= mm);
                }
                Expr::Object(ps)
            },
        }
    }
}


/// A minus sign applied twice gives the number back.
pub proof fn law_double_negation(n: u64)
    ensures
        neg_bits(neg_bits(n)) == n,
{
    assert(n ^ SIGN_BIT ^ SIGN_BIT == n) by (bit_vector);
}

/// A sign applies to a number and to nothing else: minus flips the sign of
/// the number its operand lowers to, plus keeps it, and an operand that does
/// not lower to a number makes the whole expression drop.
pub proof fn law_unary_sign(u: Expr)
    requires
        u is Unary,
    ensures
        lower_spec(u) == match lower_spec(*u->Unary_1) {
            Some(JVal::Num(n)) => Some(
                JVal::Num(
                    if u->Unary_0 == Sign::Minus {
                        neg_bits(n)
                    } else {
                        n
                    },
                ),
            ),
            _ => None,
        },
{
}


/// Every value that lowering produces has unique keys in all its objects.
pub proof fn law_lowered_well_formed(e: Expr)
    ensures
        lower_spec(e) matches Some(v) ==> well_formed(v),
    decreases e, 0int,
{
    match e {
        Expr::Object(ps) => {
            let m = lower_props(ps, ps.len() as int);
            lemma_props_well_formed(ps, ps.len() as int);
            law_last_value_wins(ps, ps.len() as int, Seq::empty());
            assert(forall|i: int| 0 <= i < m.len() ==> well_formed(#[trigger] m[i].1));
            assert(well_formed(JVal::Obj(m)));
        },
        Expr::Array(es) => {
            let a = lower_elems(es, es.len() as int);
            lemma_elems_well_formed(es, es.len() as int);
            assert(forall|i: int| 0 <= i < a.len() ==> well_formed(#[trigger] a[i]));
            assert(well_formed(JVal::Arr(a)));
        },
        Expr::Unary(_, a) => law_lowered_well_formed(*a),
        _ => {},
    }
}

proof fn lemma_props_well_formed(ps: Vec<Prop>, n: int)
    requires
        0 <= n <= ps.len(),
    ensures
        forall|i: int|
            0 <= i < lower_props(ps, n).len() ==> well_formed(#[trigger] lower_props(ps, n)[i].1),
    decreases ps, n,
{
    if n > 0 {
        lemma_props_well_formed(ps, n - 1);
        law_last_value_wins(ps, n - 1, Seq::empty());
        let m = lower_props(ps, n - 1);
        match ps@[n - 1] {
            Prop::KeyValue(k, x) => {
                assert(decreases_to!(ps => ps[n - 1]));
                law_lowered_well_formed(x);
                match lower_spec(x) {
                    Some(v) => {
                        let m2 = obj_insert(m, key_text(k), v);
                        assert forall|i: int| 0 <= i < m2.len() implies well_formed(#[trigger] m2[i].1) by {
                            if i < m.len() && m2[i].1 != v {
                                assert(m2[i] == m[i]);
                            }
                        }
                    },
                    None => {},
                }
            },
            Prop::Unsupported => {},
        }
    }
}

proof fn lemma_elems_well_formed(es: Vec<Elem>, n: int)
    requires
        0 <= n <= es.len(),
    ensures
        forall|i: int|
            0 <= i < lower_elems(es, n).len() ==> well_formed(#[trigger] lower_elems(es, n)[i]),
    decreases es, n,
{
    if n > 0 {
        lemma_elems_well_formed(es, n - 1);
        match es@[n - 1] {
            Elem::Item(x) => {
                assert(decreases_to!(es => es[n - 1]));
                law_lowered_well_formed(x);
                let a = lower_elems(es, n - 1);
                if let Some(v) = lower_spec(x) {
                    assert(well_formed(v));
                    assert(lower_elems(es, n) == a.push(v));
                    assert forall|i: int| 0 <= i < a.push(v).len() implies well_formed(
                        #[trigger] a.push(v)[i],
                    ) by {
                        if i < a.len() {
                            assert(a.push(v)[i] == a[i]);
                        }
                    }
                } else {
                    assert(lower_elems(es, n) == a);
                }
            },
            _ => {
                assert(lower_elems(es, n) == lower_elems(es, n - 1));
            },
        }
    }
}

} // verus!
