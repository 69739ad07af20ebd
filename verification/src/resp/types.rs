//! Protocol values and their mathematical model.

use vstd::prelude::*;

verus! {

/// The mathematical model of a protocol value: text as characters, binary
/// payloads as bytes, arrays as sequences of models.
pub enum Value {
    SimpleString(Seq<char>),
    Error(Seq<char>),
    Integer(i64),
    BulkString(Seq<u8>),
    NullBulkString,
    Array(Seq<Value>),
    NullArray,
}

/// A value of the wire protocol.
#[derive(Debug, PartialEq, Eq)]
pub enum RespValue {
    SimpleString(String),
    Error(String),
    Integer(i64),
    BulkString(Vec<u8>),
    NullBulkString(),
    Array(Vec<RespValue>),
    NullArray(),
}

/// The model of `v`. An array is modelled item by item; the index is kept
/// within the array so that the definition visibly descends into `v`.
pub open spec fn value_of(v: RespValue) -> Value
    decreases v,
{
    match v {
        RespValue::SimpleString(s) => Value::SimpleString(s@),
        RespValue::Error(s) => Value::Error(s@),
        RespValue::Integer(i) => Value::Integer(i),
        RespValue::BulkString(b) => Value::BulkString(b@),
        RespValue::NullBulkString() => Value::NullBulkString,
        RespValue::Array(items) => Value::Array(
            Seq::new(
                items@.len(),
                |i: int|
                    if 0 <= i < items@.len() {
                        value_of(items@[i])
                    } else {
                        Value::NullArray
                    },
            ),
        ),
        RespValue::NullArray() => Value::NullArray,
    }
}

/// The models of `items`, in order.
pub open spec fn values_of(items: Seq<RespValue>) -> Seq<Value> {
    Seq::new(items.len(), |i: int| value_of(items[i]))
}

/// The model of an array is the array of its items' models.
pub proof fn lemma_array_view(items: Vec<RespValue>)
    ensures
        RespValue::Array(items)@ == Value::Array(values_of(items@)),
{
    assert(RespValue::Array(items)@->Array_0 =~= values_of(items@));
}

impl View for RespValue {
    type V = Value;

    open spec fn view(&self) -> Value {
        value_of(*self)
    }
}

impl Clone for RespValue {
    fn clone(&self) -> (r: Self)
        ensures
            r@ == self@,
        decreases self,
    {
        match self {
            RespValue::SimpleString(s) => RespValue::SimpleString(s.clone()),
            RespValue::Error(s) => RespValue::Error(s.clone()),
            RespValue::Integer(i) => RespValue::Integer(*i),
            RespValue::BulkString(b) => RespValue::BulkString(b.clone()),
            RespValue::NullBulkString() => RespValue::NullBulkString(),
            RespValue::Array(items) => {
                let mut copies: Vec<RespValue> = Vec::new();
                let mut i: usize = 0;
                while i < items.len()
                    invariant
                        i <= items@.len(),
                        self matches RespValue::Array(v) && v == items,
                        copies@.len() == i,
                        forall|j: int| 0 <= j < i ==> (#[trigger] copies@[j])@ == items@[j]@,
                    decreases items@.len() - i,
                {
                    let copy = items[i].clone();
                    copies.push(copy);
                    i += 1;
                }
                let r = RespValue::Array(copies);
                assert(r@->Array_0 =~= self@->Array_0);
                r
            },
            RespValue::NullArray() => RespValue::NullArray(),
        }
    }
}

} // verus!
