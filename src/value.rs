//! The generic structured value and its mathematical model.
use vstd::prelude::*;

verus! {

broadcast use vstd::std_specs::vec::group_vec_axioms;

/// A generic structured value. `Number` holds the IEEE-754 bit pattern of a
/// double; `Object` keeps its entries in insertion order, with unique keys.
#[derive(Debug)]
pub enum Value {
    Null,
    Bool(bool),
    Number(u64),
    Str(String),
    Array(Vec<Value>),
    Object(Vec<(String, Value)>),
}

/// The mathematical model of a `Value`.
pub enum JVal {
    Null,
    Bool(bool),
    Num(u64),
    Str(Seq<char>),
    Arr(Seq<JVal>),
    Obj(Seq<(Seq<char>, JVal)>),
}

/// The sign bit of an IEEE-754 double.
pub const SIGN_BIT: u64 = 0x8000_0000_0000_0000;

/// The bit pattern of the negation of the double with bit pattern `bits`.
pub open spec fn neg_bits(bits: u64) -> u64 {
    bits ^ SIGN_BIT
}

pub open spec fn entry_model(e: (String, Value)) -> (Seq<char>, JVal)
    decreases e,
{
    (e.0@, e.1.model())
}

/// The models of an array's items.
pub open spec fn items_model(a: Vec<Value>) -> Seq<JVal>
    decreases a,
{
    Seq::new(a.len() as nat, |i: int| if 0 <= i < a.len() { a@[i].model() } else { JVal::Null })
}

/// The models of an object's entries.
pub open spec fn entries_model(o: Vec<(String, Value)>) -> Seq<(Seq<char>, JVal)>
    decreases o,
{
    Seq::new(
        o.len() as nat,
        |i: int| if 0 <= i < o.len() { entry_model(o@[i]) } else { (Seq::empty(), JVal::Null) },
    )
}

impl Value {
    pub open spec fn model(self) -> JVal
        decreases self,
    {
        match self {
            Value::Null => JVal::Null,
            Value::Bool(b) => JVal::Bool(b),
            Value::Number(n) => JVal::Num(n),
            Value::Str(s) => JVal::Str(s@),
            Value::Array(a) => JVal::Arr(items_model(a)),
            Value::Object(o) => JVal::Obj(entries_model(o)),
        }
    }
}

} // verus!
