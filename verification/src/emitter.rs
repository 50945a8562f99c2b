//! Building transactions for emission: the key-value list a transaction is
//! serialized from, assembled either in one call or through a chained
//! builder. The host call that sends the serialized bytes lives outside
//! the library; these functions only assemble and encode.
use vstd::prelude::*;

use crate::address::Address;
use crate::dict::Dict;
use crate::types::{payload_item_value, tx_kind_code, PayloadItem, PayloadModel, TxKind};
use crate::value::{pairs_view, seq_view, TextModel, Utf8String, ValModel, Value};

verus! {

/// A text value holding the given characters.
pub open spec fn text_value(cs: Seq<char>) -> ValModel {
    ValModel::Text(TextModel::Chars(cs))
}

/// The array value of a payload list: each item as its 3-element array,
/// in order.
pub open spec fn payload_list_value(ps: Seq<PayloadModel>) -> ValModel {
    ValModel::Arr(Seq::new(ps.len(), |i: int| payload_item_value(ps[i])))
}

/// Converts a payload list into its array value.
fn payload_value(payload: Vec<PayloadItem>) -> (r: Value)
    ensures
        r@ == payload_list_value(payload.deep_view()),
{
    let ghost ps = payload.deep_view();
    let mut a: Vec<Value> = Vec::new();
    let mut k: usize = 0;
    while k < payload.len()
        invariant
            k <= payload.len(),
            ps.len() == payload.len(),
            ps =~= payload.deep_view(),
            a@.len() == k as int,
            forall|j: int| 0 <= j < k ==> (#[trigger] a@[j])@ == payload_item_value(ps[j]),
        decreases payload.len() - k,
    {
        a.push(Value::from(&payload[k]));
        k = k + 1;
    }
    proof {
        Value::lemma_view_arr(a);
        assert(seq_view(a@) =~= payload_list_value(ps)->Arr_0);
    }
    Value::Array(a)
}

/// The value of a method call: a 2-element array of the method name and
/// its argument list.
pub open spec fn call_value(method: Seq<char>, args: Seq<ValModel>) -> ValModel {
    ValModel::Arr(seq![text_value(method), ValModel::Arr(args)])
}

/// Converts a method name and argument list into the call value.
fn method_call_value(method: &str, args: Vec<Value>) -> (r: Value)
    ensures
        r@ == call_value(method@, seq_view(args@)),
{
    let mut a: Vec<Value> = Vec::new();
    a.push(Value::String(Utf8String::from(method)));
    proof {
        Value::lemma_view_arr(args);
    }
    a.push(Value::Array(args));
    proof {
        Value::lemma_view_arr(a);
        assert(seq_view(a@) =~= call_value(method@, seq_view(a@[1]->Array_0@))->Arr_0);
    }
    Value::Array(a)
}

/// The key-value list `emit_tx` assembles: the kind under "k", then each
/// present optional part under its key, in a fixed order.
pub open spec fn emit_tx_pairs(
    kind: TxKind,
    to: Option<Seq<u8>>,
    payload: Option<Seq<PayloadModel>>,
    call: Option<(Seq<char>, Seq<ValModel>)>,
    extradata: Option<Seq<(Seq<char>, ValModel)>>,
) -> Seq<(ValModel, ValModel)> {
    seq![(text_value("k"@), ValModel::Int(tx_kind_code(kind)))] + (match to {
        Some(a) => seq![(text_value("to"@), ValModel::Bin(a))],
        None => Seq::empty(),
    }) + (match payload {
        Some(ps) => seq![(text_value("p"@), payload_list_value(ps))],
        None => Seq::empty(),
    }) + (match call {
        Some((m, args)) => seq![(text_value("c"@), call_value(m, args))],
        None => Seq::empty(),
    }) + (match extradata {
        Some(ed) => seq![
            (
                text_value("e"@),
                ValModel::Pairs(Seq::new(ed.len(), |i: int| (text_value(ed[i].0), ed[i].1))),
            ),
        ],
        None => Seq::empty(),
    })
}

/// Assembles the key-value list of a transaction from its parts. The
/// result is what the host emission serializes as a map value.
pub fn emit_tx(
    kind: TxKind,
    to: Option<Address>,
    payload: Option<Vec<PayloadItem>>,
    call: Option<(&str, Vec<Value>)>,
    extradata: Option<Dict>,
) -> (r: Vec<(Value, Value)>)
    ensures
        pairs_view(r@) == emit_tx_pairs(
            kind,
            match to {
                Some(a) => Some(a@),
                None => None,
            },
            match payload {
                Some(p) => Some(p.deep_view()),
                None => None,
            },
            match call {
                Some((m, args)) => Some((m@, seq_view(args@))),
                None => None,
            },
            match extradata {
                Some(d) => Some(d@),
                None => None,
            },
    ),
{
    let ghost to0 = to;
    let ghost payload0 = payload;
    let ghost call0 = call;
    let ghost extradata0 = extradata;
    let mut v: Vec<(Value, Value)> = Vec::new();
    v.push((Value::from("k"), Value::from(kind)));
    match to {
        Some(x) => {
            proof {
                x.lemma_views();
            }
            v.push((Value::from("to"), Value::from(x)));
        },
        None => {},
    }
    match payload {
        Some(x) => {
            v.push((Value::from("p"), payload_value(x)));
        },
        None => {},
    }
    match call {
        Some((m, args)) => {
            v.push((Value::from("c"), method_call_value(m, args)));
        },
        None => {},
    }
    match extradata {
        Some(x) => {
            proof {
                x.lemma_views();
            }
            let ghost ed = x@;
            let ev = Value::from(x);
            proof {
                assert(ev@->Pairs_0 =~= Seq::new(ed.len(), |i: int| (text_value(ed[i].0), ed[i].1)));
            }
            v.push((Value::from("e"), ev));
        },
        None => {},
    }
    proof {
        assert(pairs_view(v@) =~= emit_tx_pairs(
            kind,
            match to0 {
                Some(a) => Some(a@),
                None => None,
            },
            match payload0 {
                Some(p) => Some(p.deep_view()),
                None => None,
            },
            match call0 {
                Some((m, args)) => Some((m@, seq_view(args@))),
                None => None,
            },
            match extradata0 {
                Some(d) => Some(d@),
                None => None,
            },
        ));
    }
    v
}

/// The mathematical content of a transaction builder: the key-value pairs
/// collected so far, the notification values, the extra-data pairs, and
/// the payload values.
pub struct EmitterModel {
    pub tx: Seq<(ValModel, ValModel)>,
    pub n: Seq<ValModel>,
    pub e: Seq<(ValModel, ValModel)>,
    pub p: Seq<ValModel>,
}

/// A chained builder collecting the parts of a transaction; a single
/// finishing call assembles the key-value list to serialize and emit.
pub struct TxEmitter {
    tx: Vec<(Value, Value)>,
    n: Vec<Value>,
    e: Vec<(Value, Value)>,
    p: Vec<Value>,
}

impl View for TxEmitter {
    type V = EmitterModel;

    closed spec fn view(&self) -> EmitterModel {
        EmitterModel {
            tx: pairs_view(self.tx@),
            n: seq_view(self.n@),
            e: pairs_view(self.e@),
            p: seq_view(self.p@),
        }
    }
}

impl TxEmitter {
    /// Starts a transaction of the given kind.
    pub fn new(kind: TxKind) -> (r: TxEmitter)
        ensures
            r@.tx == seq![(text_value("k"@), ValModel::Int(tx_kind_code(kind)))],
            r@.n == Seq::<ValModel>::empty(),
            r@.e == Seq::<(ValModel, ValModel)>::empty(),
            r@.p == Seq::<ValModel>::empty(),
    {
        let mut x = TxEmitter { tx: Vec::new(), n: Vec::new(), e: Vec::new(), p: Vec::new() };
        x.tx.push((Value::from("k"), Value::from(kind)));
        proof {
            assert(x@.tx =~= seq![(text_value("k"@), ValModel::Int(tx_kind_code(kind)))]);
            assert(x@.n =~= Seq::<ValModel>::empty());
            assert(x@.e =~= Seq::<(ValModel, ValModel)>::empty());
            assert(x@.p =~= Seq::<ValModel>::empty());
        }
        x
    }

    /// Sets the recipient.
    pub fn to(self, addr: Address) -> (r: Self)
        ensures
            r@.tx == self@.tx.push((text_value("to"@), ValModel::Bin(addr@))),
            r@.n == self@.n && r@.e == self@.e && r@.p == self@.p,
    {
        let mut s = self;
        proof {
            addr.lemma_views();
        }
        s.tx.push((Value::from("to"), Value::from(addr)));
        proof {
            assert(s@.tx =~= self@.tx.push((text_value("to"@), ValModel::Bin(addr@))));
        }
        s
    }

    /// Adds one payload item.
    pub fn payload(self, payload: PayloadItem) -> (r: Self)
        ensures
            r@.p == self@.p.push(payload_item_value(payload.deep_view())),
            r@.tx == self@.tx && r@.n == self@.n && r@.e == self@.e,
    {
        let mut s = self;
        let ghost pv = payload.deep_view();
        s.p.push(Value::from(payload));
        proof {
            assert(s@.p =~= self@.p.push(payload_item_value(pv)));
        }
        s
    }

    /// Sets the method call.
    pub fn call(self, method: &str, args: Vec<Value>) -> (r: Self)
        ensures
            r@.tx == self@.tx.push((text_value("c"@), call_value(method@, seq_view(args@)))),
            r@.n == self@.n && r@.e == self@.e && r@.p == self@.p,
    {
        let mut s = self;
        let ghost am = seq_view(args@);
        s.tx.push((Value::from("c"), method_call_value(method, args)));
        proof {
            assert(s@.tx =~= self@.tx.push((text_value("c"@), call_value(method@, am))));
        }
        s
    }

    /// Sets the earliest time the transaction may apply.
    pub fn not_before(self, not_before: u64) -> (r: Self)
        ensures
            r@.tx == self@.tx.push((text_value("nb"@), ValModel::Int(not_before as int))),
            r@.n == self@.n && r@.e == self@.e && r@.p == self@.p,
    {
        let mut s = self;
        s.tx.push((Value::from("nb"), Value::from(not_before)));
        proof {
            assert(s@.tx =~= self@.tx.push(
                (text_value("nb"@), ValModel::Int(not_before as int)),
            ));
        }
        s
    }

    /// Adds a notification posting raw bytes to a URL.
    pub fn notify_url_binary(self, url: &str, data: Vec<u8>) -> (r: Self)
        ensures
            r@.n == self@.n.push(notify_value(url@, ValModel::Bin(data@), false)),
            r@.tx == self@.tx && r@.e == self@.e && r@.p == self@.p,
    {
        let mut s = self;
        let ghost dm = ValModel::Bin(data@);
        let mut pairs: Vec<(Value, Value)> = Vec::new();
        pairs.push((Value::from("u"), Value::from(url)));
        pairs.push((Value::from("ct"), Value::from("application/octet-stream")));
        pairs.push((Value::from("d"), Value::Binary(data)));
        proof {
            Value::lemma_view_map(pairs);
            assert(pairs_view(pairs@) =~= notify_value(url@, dm, false)->Pairs_0);
        }
        s.n.push(Value::Mapping(pairs));
        proof {
            assert(s@.n =~= self@.n.push(notify_value(url@, dm, false)));
        }
        s
    }

    /// Adds a notification posting a JSON document to a URL.
    pub fn notify_url_json(self, url: &str, data: &str) -> (r: Self)
        ensures
            r@.n == self@.n.push(notify_value(url@, text_value(data@), true)),
            r@.tx == self@.tx && r@.e == self@.e && r@.p == self@.p,
    {
        let mut s = self;
        let mut pairs: Vec<(Value, Value)> = Vec::new();
        pairs.push((Value::from("u"), Value::from(url)));
        pairs.push((Value::from("ct"), Value::from("application/json")));
        pairs.push((Value::from("d"), Value::from(data)));
        proof {
            Value::lemma_view_map(pairs);
            assert(pairs_view(pairs@) =~= notify_value(url@, text_value(data@), true)->Pairs_0);
        }
        s.n.push(Value::Mapping(pairs));
        proof {
            assert(s@.n =~= self@.n.push(notify_value(url@, text_value(data@), true)));
        }
        s
    }

    /// Adds one extra-data pair.
    pub fn extra(self, key: &str, value: Value) -> (r: Self)
        ensures
            r@.e == self@.e.push((text_value(key@), value@)),
            r@.tx == self@.tx && r@.n == self@.n && r@.p == self@.p,
    {
        let mut s = self;
        let ghost vm = value@;
        s.e.push((Value::from(key), value));
        proof {
            assert(s@.e =~= self@.e.push((text_value(key@), vm)));
        }
        s
    }

    /// Finishes the builder: the key-value list to serialize and emit,
    /// with the payload under "p", the notifications under "ev" when any,
    /// and the extra data under "e" when any.
    pub fn emit(self) -> (r: Vec<(Value, Value)>)
        ensures
            pairs_view(r@) == self@.tx + seq![(text_value("p"@), ValModel::Arr(self@.p))] + (if self@.n.len() > 0 {
                seq![(text_value("ev"@), ValModel::Arr(self@.n))]
            } else {
                Seq::empty()
            }) + (if self@.e.len() > 0 {
                seq![(text_value("e"@), ValModel::Pairs(self@.e))]
            } else {
                Seq::empty()
            }),
    {
        let ghost m = self@;
        let TxEmitter { mut tx, n, e, p } = self;
        proof {
            Value::lemma_view_arr(p);
        }
        tx.push((Value::from("p"), Value::Array(p)));
        if n.len() > 0 {
            proof {
                Value::lemma_view_arr(n);
            }
            tx.push((Value::from("ev"), Value::Array(n)));
        }
        if e.len() > 0 {
            proof {
                Value::lemma_view_map(e);
            }
            tx.push((Value::from("e"), Value::Mapping(e)));
        }
        proof {
            assert(pairs_view(tx@) =~= m.tx + seq![(text_value("p"@), ValModel::Arr(m.p))] + (if m.n.len() > 0 {
                seq![(text_value("ev"@), ValModel::Arr(m.n))]
            } else {
                Seq::empty()
            }) + (if m.e.len() > 0 {
                seq![(text_value("e"@), ValModel::Pairs(m.e))]
            } else {
                Seq::empty()
            }));
        }
        tx
    }
}

/// The map value of one notification: the URL under "u", the content type
/// under "ct" — JSON or octet-stream — and the data under "d".
pub open spec fn notify_value(url: Seq<char>, data: ValModel, json: bool) -> ValModel {
    ValModel::Pairs(
        seq![
            (text_value("u"@), text_value(url)),
            (
                text_value("ct"@),
                text_value(
                    if json {
                        "application/json"@
                    } else {
                        "application/octet-stream"@
                    },
                ),
            ),
            (text_value("d"@), data),
        ],
    )
}

} // verus!
