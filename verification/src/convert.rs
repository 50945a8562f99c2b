//! Conversions from the dynamic value into native types: total functions
//! that yield absence — never an abort — exactly when the value's tag or
//! shape does not match the requested type.
use vstd::prelude::*;

use crate::value::{TextModel, ValModel, Value};

verus! {

/// Conversion from a dynamic value into a native type. Converting is total
/// and never fails hard: a value whose tag or shape does not match yields
/// `None`, a legitimate outcome the caller branches on.
pub trait FromValue: Sized + DeepView {
    /// What the conversion yields, as mathematics, for each value model.
    spec fn from_value_model(m: ValModel) -> Option<Self::V>;

    /// Converts the value; absent exactly on tag or shape mismatch.
    fn from_value(arg: &Value) -> (r: Option<Self>)
        ensures
            r is Some <==> Self::from_value_model(arg@) is Some,
            r matches Some(v) ==> Some(v.deep_view()) == Self::from_value_model(arg@),
    ;
}

/// Converts a dynamic value into any type that supports it.
pub fn from_value<T: FromValue>(arg: &Value) -> (r: Option<T>)
    ensures
        r is Some <==> T::from_value_model(arg@) is Some,
        r matches Some(v) ==> Some(v.deep_view()) == T::from_value_model(arg@),
{
    T::from_value(arg)
}

impl FromValue for u64 {
    /// An integer value, reduced to 64 unsigned bits; negative values wrap.
    open spec fn from_value_model(m: ValModel) -> Option<u64> {
        match m {
            ValModel::Int(i) => Some(i as u64),
            _ => None,
        }
    }

    fn from_value(arg: &Value) -> (r: Option<u64>) {
        if let Value::Integer(i) = arg {
            Some(i.as_u64().unwrap())
        } else {
            None
        }
    }
}

impl FromValue for i64 {
    /// An integer value, reduced to 64 signed bits; large magnitudes wrap.
    open spec fn from_value_model(m: ValModel) -> Option<i64> {
        match m {
            ValModel::Int(i) => Some(i as i64),
            _ => None,
        }
    }

    fn from_value(arg: &Value) -> (r: Option<i64>) {
        if let Value::Integer(i) = arg {
            Some(i.as_i64().unwrap())
        } else {
            None
        }
    }
}

impl FromValue for bool {
    open spec fn from_value_model(m: ValModel) -> Option<bool> {
        match m {
            ValModel::Bool(b) => Some(b),
            _ => None,
        }
    }

    fn from_value(arg: &Value) -> (r: Option<bool>) {
        if let Value::Boolean(b) = arg {
            Some(*b)
        } else {
            None
        }
    }
}

impl FromValue for String {
    /// A valid UTF-8 text value; raw-byte text does not convert.
    open spec fn from_value_model(m: ValModel) -> Option<Seq<char>> {
        match m {
            ValModel::Text(TextModel::Chars(cs)) => Some(cs),
            _ => None,
        }
    }

    fn from_value(arg: &Value) -> (r: Option<String>) {
        if let Value::String(s) = arg {
            match s.as_str() {
                Some(st) => Some(st.to_owned()),
                None => None,
            }
        } else {
            None
        }
    }
}

impl FromValue for Vec<u8> {
    /// A binary value's bytes.
    open spec fn from_value_model(m: ValModel) -> Option<Seq<u8>> {
        match m {
            ValModel::Bin(b) => Some(b),
            _ => None,
        }
    }

    fn from_value(arg: &Value) -> (r: Option<Vec<u8>>) {
        if let Value::Binary(b) = arg {
            Some(vstd::slice::slice_to_vec(b.as_slice()))
        } else {
            None
        }
    }
}

impl FromValue for Value {
    /// Any value converts to itself.
    open spec fn from_value_model(m: ValModel) -> Option<ValModel> {
        Some(m)
    }

    fn from_value(arg: &Value) -> (r: Option<Value>) {
        Some(arg.clone())
    }
}

impl FromValue for () {
    /// The unit conversion accepts any value.
    open spec fn from_value_model(m: ValModel) -> Option<()> {
        Some(())
    }

    fn from_value(arg: &Value) -> (r: Option<()>) {
        Some(())
    }
}

/// The element-wise conversions of a sequence of value models: present
/// exactly when every element converts, the converted elements in order.
pub open spec fn list_models<T: FromValue>(s: Seq<ValModel>) -> Option<Seq<T::V>>
    decreases s.len(),
{
    if s.len() == 0 {
        Some(Seq::empty())
    } else {
        match T::from_value_model(s[0]) {
            None => None,
            Some(v) => match list_models::<T>(s.drop_first()) {
                None => None,
                Some(vs) => Some(seq![v] + vs),
            },
        }
    }
}

impl<T: FromValue> FromValue for Vec<T> {
    /// An array value whose elements all convert, element-wise in order.
    open spec fn from_value_model(m: ValModel) -> Option<Seq<T::V>> {
        match m {
            ValModel::Arr(s) => list_models::<T>(s),
            _ => None,
        }
    }

    fn from_value(arg: &Value) -> (r: Option<Vec<T>>) {
        let a = match arg.as_array() {
            Some(a) => a,
            None => {
                return None;
            },
        };
        let ghost s = arg@->Arr_0;
        let mut out: Vec<T> = Vec::new();
        let mut k: usize = 0;
        proof {
            assert(s.skip(0) =~= s);
            assert(out.deep_view() =~= Seq::<T::V>::empty());
            match list_models::<T>(s) {
                Some(vs) => {
                    assert(out.deep_view() + vs =~= vs);
                },
                None => {},
            }
        }
        while k < a.len()
            invariant
                k <= a.len(),
                out.deep_view().len() == k as int,
                s.len() == a.len(),
                forall|j: int| 0 <= j < s.len() ==> s[j] == a@[j]@,
                list_models::<T>(s) == (match list_models::<T>(s.skip(k as int)) {
                    Some(vs) => Some(out.deep_view() + vs),
                    None => None::<Seq<T::V>>,
                }),
            decreases a.len() - k,
        {
            match T::from_value(&a[k]) {
                Some(v) => {
                    proof {
                        let tail = s.skip(k as int);
                        assert(tail[0] == s[k as int]);
                        assert(tail.drop_first() =~= s.skip(k + 1));
                        let ghost dv = v.deep_view();
                        assert forall|vs2: Seq<T::V>|
                            true implies out.deep_view() + (seq![dv] + vs2) == (out.deep_view()
                            + seq![dv]) + vs2 by {
                            assert(out.deep_view() + (seq![dv] + vs2) =~= (out.deep_view()
                                + seq![dv]) + vs2);
                        }
                    }
                    let ghost prev = out.deep_view();
                    out.push(v);
                    proof {
                        assert(out.deep_view() =~= prev + seq![out@.last().deep_view()]);
                    }
                    k = k + 1;
                },
                None => {
                    proof {
                        let tail = s.skip(k as int);
                        assert(tail[0] == s[k as int]);
                    }
                    return None;
                },
            }
        }
        proof {
            assert(s.skip(s.len() as int).len() == 0);
            assert(out.deep_view() + Seq::<T::V>::empty() =~= out.deep_view());
        }
        Some(out)
    }
}

impl<T1: FromValue, T2: FromValue> FromValue for (T1, T2) {
    /// An array of at least two elements whose first two convert; elements
    /// past the arity are ignored.
    open spec fn from_value_model(m: ValModel) -> Option<(T1::V, T2::V)> {
        match m {
            ValModel::Arr(s) => if s.len() >= 2 {
                match (T1::from_value_model(s[0]), T2::from_value_model(s[1])) {
                    (Some(v1), Some(v2)) => Some((v1, v2)),
                    _ => None,
                }
            } else {
                None
            },
            _ => None,
        }
    }

    fn from_value(arg: &Value) -> (r: Option<(T1, T2)>) {
        let a = match arg.as_array() {
            Some(a) => a,
            None => {
                return None;
            },
        };
        if a.len() < 2 {
            return None;
        }
        match (T1::from_value(&a[0]), T2::from_value(&a[1])) {
            (Some(v1), Some(v2)) => Some((v1, v2)),
            _ => None,
        }
    }
}

impl<T1: FromValue, T2: FromValue, T3: FromValue> FromValue for (T1, T2, T3) {
    /// An array of at least three elements whose first three convert;
    /// elements past the arity are ignored.
    open spec fn from_value_model(m: ValModel) -> Option<(T1::V, T2::V, T3::V)> {
        match m {
            ValModel::Arr(s) => if s.len() >= 3 {
                match (
                    T1::from_value_model(s[0]),
                    T2::from_value_model(s[1]),
                    T3::from_value_model(s[2]),
                ) {
                    (Some(v1), Some(v2), Some(v3)) => Some((v1, v2, v3)),
                    _ => None,
                }
            } else {
                None
            },
            _ => None,
        }
    }

    fn from_value(arg: &Value) -> (r: Option<(T1, T2, T3)>) {
        let a = match arg.as_array() {
            Some(a) => a,
            None => {
                return None;
            },
        };
        if a.len() < 3 {
            return None;
        }
        match (T1::from_value(&a[0]), T2::from_value(&a[1]), T3::from_value(&a[2])) {
            (Some(v1), Some(v2), Some(v3)) => Some((v1, v2, v3)),
            _ => None,
        }
    }
}

} // verus!
