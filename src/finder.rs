//! Search of a generic value for the objects that match a record's schema.
use crate::lower::has_key;
use crate::value::{entries_model, entry_model, items_model, JVal, Value};
use vstd::prelude::*;

verus! {

broadcast use vstd::std_specs::vec::group_vec_axioms;

/// A record that can be picked out of a generic value: the keys an object
/// must hold to be a candidate, and how a candidate becomes a record.
///
/// The spec methods describe `keys` and `decode`; an implementation that
/// returns records states them. Left at their defaults, they describe a
/// record that no object becomes.
pub trait CondKeys: Sized {
    /// The keys a candidate object holds.
    open spec fn required_keys() -> Seq<Seq<char>> {
        Seq::empty()
    }

    /// Whether a candidate becomes a record.
    open spec fn decodable(v: JVal) -> bool {
        false
    }

    /// Whether `r` is a record that `v` becomes.
    open spec fn decodes_to(v: JVal, r: Self) -> bool {
        false
    }

    fn keys() -> (r: Vec<String>)
        ensures
            strings_model(r) == Self::required_keys(),
    ;

    fn decode(v: &Value) -> (r: Option<Self>)
        ensures
            r is Some <==> Self::decodable(v.model()),
            r is Some ==> Self::decodes_to(v.model(), r->0),
    ;
}

/// The texts of a vector of strings.
pub open spec fn strings_model(ks: Vec<String>) -> Seq<Seq<char>> {
    ks@.map_values(|k: String| k@)
}

/// Whether an object holds every key of `ks`.
pub open spec fn has_all_keys(m: Seq<(Seq<char>, JVal)>, ks: Seq<Seq<char>>) -> bool {
    forall|i: int| 0 <= i < ks.len() ==> has_key(m, #[trigger] ks[i])
}

/// Whether an object value is taken as a record of `T`.
pub open spec fn matches<T: CondKeys>(v: JVal) -> bool {
    &&& v is Obj
    &&& has_all_keys(v->Obj_0, T::required_keys())
    &&& T::decodable(v)
}

/// The sub-values taken as records of `T`, depth first and in order; the
/// search does not go into a value that is taken.
pub open spec fn found<T: CondKeys>(v: JVal) -> Seq<JVal>
    decreases v, 0int,
{
    if matches::<T>(v) {
        seq![v]
    } else {
        match v {
            JVal::Obj(m) => found_in_entries::<T>(m, m.len() as int),
            JVal::Arr(a) => found_in_items::<T>(a, a.len() as int),
            _ => Seq::empty(),
        }
    }
}

/// What the search finds in the first `n` items of an array.
pub open spec fn found_in_items<T: CondKeys>(a: Seq<JVal>, n: int) -> Seq<JVal>
    decreases a, n,
{
    if n <= 0 || n > a.len() {
        Seq::empty()
    } else {
        found_in_items::<T>(a, n - 1) + found::<T>(a[n - 1])
    }
}

/// What the search finds in the values of the first `n` entries of an object.
pub open spec fn found_in_entries<T: CondKeys>(m: Seq<(Seq<char>, JVal)>, n: int) -> Seq<JVal>
    decreases m, n,
{
    if n <= 0 || n > m.len() {
        Seq::empty()
    } else {
        found_in_entries::<T>(m, n - 1) + found::<T>(m[n - 1].1)
    }
}

fn object_has_key(m: &Vec<(String, Value)>, k: &String) -> (r: bool)
    ensures
        r == has_key(entries_model(*m), k@),
{
    let mut i: usize = 0;
    while i < m.len()
        invariant
            i <= m.len(),
            forall|j: int| 0 <= j < i ==> entries_model(*m)[j].0 != k@,
        decreases m.len() - i,
    {
        assert(entries_model(*m)[i as int] == entry_model(m@[i as int]));
        if m[i].0 == *k {
            return true;
        }
        i += 1;
    }
    false
}

fn object_has_all_keys(m: &Vec<(String, Value)>, ks: &Vec<String>) -> (r: bool)
    ensures
        r == has_all_keys(entries_model(*m), strings_model(*ks)),
{
    let mut i: usize = 0;
    while i < ks.len()
        invariant
            i <= ks.len(),
            forall|j: int| 0 <= j < i ==> has_key(entries_model(*m), #[trigger] strings_model(*ks)[j]),
        decreases ks.len() - i,
    {
        if !object_has_key(m, &ks[i]) {
            assert(!has_key(entries_model(*m), strings_model(*ks)[i as int]));
            return false;
        }
        i += 1;
    }
    true
}

/// The records found in `value` and the values they were decoded from.
pub open spec fn records_of<T: CondKeys>(r: Seq<T>, vs: Seq<JVal>) -> bool {
    &&& r.len() == vs.len()
    &&& forall|i: int| 0 <= i < r.len() ==> T::decodes_to(#[trigger] vs[i], r[i])
}

/// Concatenation keeps the pairing of records with values.
proof fn lemma_records_concat<T: CondKeys>(recs_a: Seq<T>, vals_a: Seq<JVal>, recs_b: Seq<T>, vals_b: Seq<JVal>)
    requires
        records_of(recs_a, vals_a),
        records_of(recs_b, vals_b),
    ensures
        records_of(recs_a + recs_b, vals_a + vals_b),
{
    assert forall|i: int| 0 <= i < (recs_a + recs_b).len() implies T::decodes_to(
        #[trigger] (vals_a + vals_b)[i],
        (recs_a + recs_b)[i],
    ) by {
        if i >= recs_a.len() {
            assert(vals_b[i - recs_a.len()] == (vals_a + vals_b)[i]);
            assert(recs_b[i - recs_a.len()] == (recs_a + recs_b)[i]);
        }
    }
}

fn find_in<T: CondKeys>(value: &Value) -> (r: Vec<T>)
    ensures
        records_of(r@, found::<T>(value.model())),
    decreases value,
{
    let mut out: Vec<T> = Vec::new();
    if let Value::Object(m) = value {
        let ks = T::keys();
        if object_has_all_keys(m, &ks) {
            if let Some(rec) = T::decode(value) {
                out.push(rec);
                proof {
                    assert(found::<T>(value.model()) == seq![value.model()]);
                }
                return out;
            }
        }
        let ghost mm = entries_model(*m);
        let mut i: usize = 0;
        while i < m.len()
            invariant
                i <= m.len(),
                *value == Value::Object(*m),
                mm == entries_model(*m),
                records_of(out@, found_in_entries::<T>(mm, i as int)),
            decreases m.len() - i,
        {
            proof {
                assert(decreases_to!(*value => (*value)->Object_0));
                assert(decreases_to!(m => m[i as int]));
                assert(decreases_to!(m[i as int] => m[i as int].1));
                assert(mm[i as int] == entry_model(m@[i as int]));
            }
            let mut sub = find_in::<T>(&m[i].1);
            proof {
                lemma_records_concat(out@, found_in_entries::<T>(mm, i as int), sub@, found::<T>(mm[i as int].1));
            }
            out.append(&mut sub);
            i += 1;
        }
    } else if let Value::Array(a) = value {
        let ghost am = items_model(*a);
        let mut i: usize = 0;
        while i < a.len()
            invariant
                i <= a.len(),
                *value == Value::Array(*a),
                am == items_model(*a),
                records_of(out@, found_in_items::<T>(am, i as int)),
            decreases a.len() - i,
        {
            proof {
                assert(decreases_to!(*value => (*value)->Array_0));
                assert(decreases_to!(a => a[i as int]));
                assert(am[i as int] == a@[i as int].model());
            }
            let mut sub = find_in::<T>(&a[i]);
            proof {
                lemma_records_concat(out@, found_in_items::<T>(am, i as int), sub@, found::<T>(am[i as int]));
            }
            out.append(&mut sub);
            i += 1;
        }
    }
    out
}

/// The records of type `T` found in `value`: each object that holds the
/// required keys and decodes is taken, and the search does not descend into
/// it; any other object or array is searched in order.
pub fn find_objects<T: CondKeys>(value: Value) -> (r: Vec<T>)
    ensures
        records_of(r@, found::<T>(value.model())),
{
    find_in(&value)
}


/// An object taken as a record is a leaf of the search: it gives exactly
/// itself, and nothing nested inside it is taken.
pub proof fn law_match_is_leaf<T: CondKeys>(v: JVal)
    requires
        matches::<T>(v),
    ensures
        found::<T>(v) == seq![v],
{
}

} // verus!
