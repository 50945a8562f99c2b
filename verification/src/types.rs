//! The transaction model: transaction kinds, payment purposes, payload
//! items and the transaction envelope, all mapped to and from the dynamic
//! value through the conversion capability — no bespoke wire logic.
use vstd::prelude::*;
use vstd::utf8::encode_utf8;

use crate::address::Address;
use crate::convert::FromValue;
use crate::dict::{spec_dict_get, Dict};
use crate::value::{seq_view, Integer, TextModel, ValModel, Value};

verus! {

/// The kind of a transaction, encoded as an unsigned integer starting
/// at 16.
#[derive(Clone, Copy, Debug, PartialEq, Eq, Structural)]
pub enum TxKind {
    Generic,
    Register,
    Deploy,
    Patch,
    Block,
    TStore,
    LStore,
    Notify,
}

/// The wire code of a transaction kind: 16 through 23, in declaration
/// order.
pub open spec fn tx_kind_code(k: TxKind) -> int {
    match k {
        TxKind::Generic => 16,
        TxKind::Register => 17,
        TxKind::Deploy => 18,
        TxKind::Patch => 19,
        TxKind::Block => 20,
        TxKind::TStore => 21,
        TxKind::LStore => 22,
        TxKind::Notify => 23,
    }
}

impl DeepView for TxKind {
    type V = TxKind;

    open spec fn deep_view(&self) -> TxKind {
        *self
    }
}

impl TxKind {
    /// The kind's wire code.
    pub fn code(&self) -> (r: u64)
        ensures
            r == tx_kind_code(*self),
    {
        match *self {
            TxKind::Generic => 16,
            TxKind::Register => 17,
            TxKind::Deploy => 18,
            TxKind::Patch => 19,
            TxKind::Block => 20,
            TxKind::TStore => 21,
            TxKind::LStore => 22,
            TxKind::Notify => 23,
        }
    }
}

impl From<TxKind> for Value {
    fn from(arg: TxKind) -> (r: Self)
        ensures
            r@ == ValModel::Int(tx_kind_code(arg)),
    {
        Value::Integer(Integer::of_u64(arg.code()))
    }
}

impl vstd::std_specs::convert::FromSpecImpl<TxKind> for Value {
    open spec fn obeys_from_spec() -> bool {
        true
    }

    open spec fn from_spec(v: TxKind) -> Value {
        crate::value::spec_value_int(tx_kind_code(v))
    }
}

impl FromValue for TxKind {
    /// An unsigned integer value carrying one of the eight kind codes.
    open spec fn from_value_model(m: ValModel) -> Option<TxKind> {
        match m {
            ValModel::Int(i) => if i == 16 {
                Some(TxKind::Generic)
            } else if i == 17 {
                Some(TxKind::Register)
            } else if i == 18 {
                Some(TxKind::Deploy)
            } else if i == 19 {
                Some(TxKind::Patch)
            } else if i == 20 {
                Some(TxKind::Block)
            } else if i == 21 {
                Some(TxKind::TStore)
            } else if i == 22 {
                Some(TxKind::LStore)
            } else if i == 23 {
                Some(TxKind::Notify)
            } else {
                None
            },
            _ => None,
        }
    }

    fn from_value(arg: &Value) -> (r: Option<TxKind>) {
        if arg.is_u64() {
            proof {
                if let Value::Integer(n) = arg {
                    n.lemma_in_range();
                }
            }
            match arg.as_u64().unwrap() {
                16 => Some(TxKind::Generic),
                17 => Some(TxKind::Register),
                18 => Some(TxKind::Deploy),
                19 => Some(TxKind::Patch),
                20 => Some(TxKind::Block),
                21 => Some(TxKind::TStore),
                22 => Some(TxKind::LStore),
                23 => Some(TxKind::Notify),
                _ => None,
            }
        } else {
            None
        }
    }
}

/// The purpose of one payload item, encoded as an unsigned integer
/// starting at 0.
#[derive(Clone, Copy, Debug, PartialEq, Eq, Structural)]
pub enum Purpose {
    Transfer,
    SrcFee,
    DstFee,
    Gas,
}

/// The wire code of a purpose: 0 through 3, in declaration order.
pub open spec fn purpose_code(p: Purpose) -> int {
    match p {
        Purpose::Transfer => 0,
        Purpose::SrcFee => 1,
        Purpose::DstFee => 2,
        Purpose::Gas => 3,
    }
}

impl DeepView for Purpose {
    type V = Purpose;

    open spec fn deep_view(&self) -> Purpose {
        *self
    }
}

impl Purpose {
    /// The purpose's wire code.
    pub fn code(&self) -> (r: u64)
        ensures
            r == purpose_code(*self),
    {
        match *self {
            Purpose::Transfer => 0,
            Purpose::SrcFee => 1,
            Purpose::DstFee => 2,
            Purpose::Gas => 3,
        }
    }
}

impl From<Purpose> for Value {
    fn from(arg: Purpose) -> (r: Self)
        ensures
            r@ == ValModel::Int(purpose_code(arg)),
    {
        Value::Integer(Integer::of_u64(arg.code()))
    }
}

impl vstd::std_specs::convert::FromSpecImpl<Purpose> for Value {
    open spec fn obeys_from_spec() -> bool {
        true
    }

    open spec fn from_spec(v: Purpose) -> Value {
        crate::value::spec_value_int(purpose_code(v))
    }
}

impl FromValue for Purpose {
    /// An unsigned integer value carrying one of the four purpose codes.
    open spec fn from_value_model(m: ValModel) -> Option<Purpose> {
        match m {
            ValModel::Int(i) => if i == 0 {
                Some(Purpose::Transfer)
            } else if i == 1 {
                Some(Purpose::SrcFee)
            } else if i == 2 {
                Some(Purpose::DstFee)
            } else if i == 3 {
                Some(Purpose::Gas)
            } else {
                None
            },
            _ => None,
        }
    }

    fn from_value(arg: &Value) -> (r: Option<Purpose>) {
        if arg.is_u64() {
            proof {
                if let Value::Integer(n) = arg {
                    n.lemma_in_range();
                }
            }
            match arg.as_u64().unwrap() {
                0 => Some(Purpose::Transfer),
                1 => Some(Purpose::SrcFee),
                2 => Some(Purpose::DstFee),
                3 => Some(Purpose::Gas),
                _ => None,
            }
        } else {
            None
        }
    }
}

impl From<Address> for Value {
    /// An address on the wire is its opaque 8-byte binary string.
    fn from(arg: Address) -> (r: Self)
        ensures
            r@ == ValModel::Bin(arg@),
    {
        Value::Binary(vstd::slice::slice_to_vec(arg.as_bytes()))
    }
}

impl vstd::std_specs::convert::FromSpecImpl<Address> for Value {
    open spec fn obeys_from_spec() -> bool {
        false
    }

    open spec fn from_spec(v: Address) -> Value {
        arbitrary()
    }
}

impl<'a> From<&'a Address> for Value {
    fn from(arg: &'a Address) -> (r: Self)
        ensures
            r@ == ValModel::Bin(arg@),
    {
        Value::Binary(vstd::slice::slice_to_vec(arg.as_bytes()))
    }
}

impl<'a> vstd::std_specs::convert::FromSpecImpl<&'a Address> for Value {
    open spec fn obeys_from_spec() -> bool {
        false
    }

    open spec fn from_spec(v: &'a Address) -> Value {
        arbitrary()
    }
}

impl FromValue for Address {
    /// An 8-byte binary value, or an array of exactly eight integers,
    /// each reduced to a byte.
    open spec fn from_value_model(m: ValModel) -> Option<Seq<u8>> {
        match m {
            ValModel::Bin(b) => if b.len() == 8 {
                Some(b)
            } else {
                None
            },
            ValModel::Arr(s) => if s.len() == 8 && (forall|i: int|
                0 <= i < 8 ==> #[trigger] s[i] is Int) {
                Some(Seq::new(8, |i: int| (s[i]->Int_0 as u64) as u8))
            } else {
                None
            },
            _ => None,
        }
    }

    fn from_value(arg: &Value) -> (r: Option<Address>) {
        if let Value::Binary(vec) = arg {
            if vec.len() == 8 {
                let a = Address::from_slice(vec.as_slice());
                proof {
                    a.lemma_views();
                }
                return Some(a);
            }
            return None;
        }
        let a = match arg.as_array() {
            Some(a) => a,
            None => {
                return None;
            },
        };
        if a.len() != 8 {
            return None;
        }
        let ghost s = arg@->Arr_0;
        let mut v: Vec<u8> = Vec::new();
        let mut k: usize = 0;
        while k < 8
            invariant
                k <= 8,
                a@.len() == 8,
                s.len() == 8,
                forall|j: int| 0 <= j < 8 ==> s[j] == a@[j]@,
                v@.len() == k as int,
                forall|j: int| 0 <= j < k ==> #[trigger] s[j] is Int,
                forall|j: int| 0 <= j < k ==> v@[j] == (s[j]->Int_0 as u64) as u8,
            decreases 8 - k,
        {
            match a[k].as_u64() {
                Some(b) => {
                    v.push(#[verifier::truncate] (b as u8));
                },
                None => {
                    proof {
                        assert(!(s[k as int] is Int));
                    }
                    return None;
                },
            }
            k = k + 1;
        }
        proof {
            assert(v@ =~= Seq::new(8, |i: int| (s[i]->Int_0 as u64) as u8));
        }
        let addr = Address::from_slice(v.as_slice());
        proof {
            addr.lemma_views();
        }
        Some(addr)
    }
}

/// An amount of some currency: the currency identifier bytes and the
/// unsigned amount.
#[derive(Clone, Debug)]
pub struct Amount {
    pub currency: Vec<u8>,
    pub amount: u64,
}

/// The mathematical content of an amount.
pub struct AmountModel {
    pub currency: Seq<u8>,
    pub amount: u64,
}

impl DeepView for Amount {
    type V = AmountModel;

    open spec fn deep_view(&self) -> AmountModel {
        AmountModel { currency: self.currency@, amount: self.amount }
    }
}

/// One payload item of a transaction: a purpose code and an amount.
#[derive(Clone, Debug)]
pub struct PayloadItem {
    pub purpose: Purpose,
    pub amount: Amount,
}

/// The mathematical content of a payload item.
pub struct PayloadModel {
    pub purpose: Purpose,
    pub amount: AmountModel,
}

impl DeepView for PayloadItem {
    type V = PayloadModel;

    open spec fn deep_view(&self) -> PayloadModel {
        PayloadModel { purpose: self.purpose, amount: self.amount.deep_view() }
    }
}

/// The value a payload item converts to: a 3-element array of purpose
/// code, currency bytes, and amount.
pub open spec fn payload_item_value(p: PayloadModel) -> ValModel {
    ValModel::Arr(
        seq![
            ValModel::Int(purpose_code(p.purpose)),
            ValModel::Bin(p.amount.currency),
            ValModel::Int(p.amount.amount as int),
        ],
    )
}

impl From<PayloadItem> for Value {
    fn from(arg: PayloadItem) -> (r: Self)
        ensures
            r@ == payload_item_value(arg.deep_view()),
    {
        let mut a: Vec<Value> = Vec::new();
        a.push(Value::from(arg.purpose));
        a.push(Value::Binary(arg.amount.currency));
        a.push(Value::Integer(Integer::of_u64(arg.amount.amount)));
        proof {
            Value::lemma_view_arr(a);
            assert(seq_view(a@) =~= payload_item_value(arg.deep_view())->Arr_0);
        }
        Value::Array(a)
    }
}

impl vstd::std_specs::convert::FromSpecImpl<PayloadItem> for Value {
    open spec fn obeys_from_spec() -> bool {
        false
    }

    open spec fn from_spec(v: PayloadItem) -> Value {
        arbitrary()
    }
}

impl<'a> From<&'a PayloadItem> for Value {
    fn from(arg: &'a PayloadItem) -> (r: Self)
        ensures
            r@ == payload_item_value(arg.deep_view()),
    {
        let mut a: Vec<Value> = Vec::new();
        a.push(Value::from(arg.purpose));
        a.push(Value::Binary(vstd::slice::slice_to_vec(arg.amount.currency.as_slice())));
        a.push(Value::Integer(Integer::of_u64(arg.amount.amount)));
        proof {
            Value::lemma_view_arr(a);
            assert(seq_view(a@) =~= payload_item_value(arg.deep_view())->Arr_0);
        }
        Value::Array(a)
    }
}

impl<'a> vstd::std_specs::convert::FromSpecImpl<&'a PayloadItem> for Value {
    open spec fn obeys_from_spec() -> bool {
        false
    }

    open spec fn from_spec(v: &'a PayloadItem) -> Value {
        arbitrary()
    }
}

/// The currency bytes a value yields: a binary value's bytes, or a text
/// value's UTF-8 bytes.
pub open spec fn currency_model(m: ValModel) -> Option<Seq<u8>> {
    match m {
        ValModel::Bin(b) => Some(b),
        ValModel::Text(TextModel::Chars(cs)) => Some(encode_utf8(cs)),
        _ => None,
    }
}

impl FromValue for PayloadItem {
    /// An array whose first three elements are a purpose code, a currency
    /// (binary or text), and an unsigned amount.
    open spec fn from_value_model(m: ValModel) -> Option<PayloadModel> {
        match m {
            ValModel::Arr(s) => if s.len() >= 1 {
                match Purpose::from_value_model(s[0]) {
                    None => None,
                    Some(p) => {
                        let cur = if s.len() >= 2 {
                            currency_model(s[1])
                        } else {
                            None
                        };
                        match cur {
                            None => None,
                            Some(cb) => if s.len() >= 3 && s[2] is Int {
                                Some(
                                    PayloadModel {
                                        purpose: p,
                                        amount: AmountModel {
                                            currency: cb,
                                            amount: s[2]->Int_0 as u64,
                                        },
                                    },
                                )
                            } else {
                                None
                            },
                        }
                    },
                }
            } else {
                None
            },
            _ => None,
        }
    }

    fn from_value(arg: &Value) -> (r: Option<PayloadItem>) {
        let a = match arg.as_array() {
            Some(a) => a,
            None => {
                return None;
            },
        };
        if a.len() < 1 {
            return None;
        }
        let p = match Purpose::from_value(&a[0]) {
            Some(p) => p,
            None => {
                return None;
            },
        };
        if a.len() < 2 {
            return None;
        }
        let c: Vec<u8> = match &a[1] {
            Value::Binary(b) => vstd::slice::slice_to_vec(b.as_slice()),
            Value::String(st) => match st.as_str() {
                Some(ss) => vstd::string::StrSliceExecFns::as_bytes_vec(ss),
                None => {
                    return None;
                },
            },
            _ => {
                return None;
            },
        };
        if a.len() < 3 {
            return None;
        }
        let amt = match a[2].as_u64() {
            Some(x) => x,
            None => {
                return None;
            },
        };
        Some(PayloadItem { purpose: p, amount: Amount { currency: c, amount: amt } })
    }
}

/// The transaction envelope: kind, sender, optional recipient, ordered
/// payload items, timestamp, and an extra-data map from text keys to
/// values.
#[derive(Debug)]
pub struct Tx {
    pub kind: TxKind,
    pub from: Address,
    pub to: Option<Address>,
    pub payload: Vec<PayloadItem>,
    pub timestamp: u64,
    pub extradata: Dict,
}

/// The mathematical content of a transaction envelope.
pub struct TxModel {
    pub kind: TxKind,
    pub from: Seq<u8>,
    pub to: Option<Seq<u8>>,
    pub payload: Seq<PayloadModel>,
    pub timestamp: u64,
    pub extradata: Seq<(Seq<char>, ValModel)>,
}

impl DeepView for Tx {
    type V = TxModel;

    open spec fn deep_view(&self) -> TxModel {
        TxModel {
            kind: self.kind,
            from: self.from.deep_view(),
            to: match self.to {
                Some(a) => Some(a.deep_view()),
                None => None,
            },
            payload: self.payload.deep_view(),
            timestamp: self.timestamp,
            extradata: self.extradata.deep_view(),
        }
    }
}

/// What a transaction converts from: a map value with short text keys —
/// kind under "k", sender under "f", optional recipient under "to",
/// payload under "p", timestamp under "t", extra data under "e".
pub open spec fn tx_model(m: ValModel) -> Option<TxModel> {
    match Dict::from_value_model(m) {
        None => None,
        Some(d) => match spec_dict_get(d, "k"@) {
            None => None,
            Some(kv) => match TxKind::from_value_model(kv) {
                None => None,
                Some(kind) => match spec_dict_get(d, "f"@) {
                    None => None,
                    Some(fv) => match Address::from_value_model(fv) {
                        None => None,
                        Some(from) => {
                            let to = match spec_dict_get(d, "to"@) {
                                None => None,
                                Some(tv) => Address::from_value_model(tv),
                            };
                            let payload = match spec_dict_get(d, "p"@) {
                                None => Some(Seq::<PayloadModel>::empty()),
                                Some(pv) => <Vec<PayloadItem> as FromValue>::from_value_model(pv),
                            };
                            match payload {
                                None => None,
                                Some(pl) => match spec_dict_get(d, "t"@) {
                                    None => None,
                                    Some(tv) => {
                                        let timestamp = match tv {
                                            ValModel::Int(i) => (i as u64),
                                            _ => 0u64,
                                        };
                                        let extradata = match spec_dict_get(d, "e"@) {
                                            None => Some(
                                                Seq::<(Seq<char>, ValModel)>::empty(),
                                            ),
                                            Some(ev) => Dict::from_value_model(ev),
                                        };
                                        match extradata {
                                            None => None,
                                            Some(ed) => Some(
                                                TxModel {
                                                    kind,
                                                    from,
                                                    to,
                                                    payload: pl,
                                                    timestamp,
                                                    extradata: ed,
                                                },
                                            ),
                                        }
                                    },
                                },
                            }
                        },
                    },
                },
            },
        },
    }
}

impl FromValue for Tx {
    /// A transaction is read from a key-value map; a missing or malformed
    /// required field yields `None`.
    open spec fn from_value_model(m: ValModel) -> Option<TxModel> {
        tx_model(m)
    }

    fn from_value(arg: &Value) -> (r: Option<Tx>) {
        let d = match Dict::from_value(arg) {
            Some(d) => d,
            None => {
                return None;
            },
        };
        proof {
            d.lemma_views();
        }
        let kind = match d.get("k") {
            Some(kv) => match TxKind::from_value(kv) {
                Some(k) => k,
                None => {
                    return None;
                },
            },
            None => {
                return None;
            },
        };
        let from = match d.get("f") {
            Some(fv) => match Address::from_value(fv) {
                Some(a) => {
                    proof {
                        a.lemma_views();
                    }
                    a
                },
                None => {
                    return None;
                },
            },
            None => {
                return None;
            },
        };
        let to: Option<Address> = match d.get("to") {
            Some(tv) => Address::from_value(tv),
            None => None,
        };
        let payload: Vec<PayloadItem> = match d.get("p") {
            Some(pv) => match <Vec<PayloadItem> as FromValue>::from_value(pv) {
                Some(pl) => pl,
                None => {
                    return None;
                },
            },
            None => Vec::new(),
        };
        let timestamp: u64 = match d.get("t") {
            Some(tv) => match tv.as_u64() {
                Some(x) => x,
                None => 0,
            },
            None => {
                return None;
            },
        };
        let extradata: Dict = match d.get("e") {
            Some(ev) => match Dict::from_value(ev) {
                Some(ed) => {
                    proof {
                        ed.lemma_views();
                    }
                    ed
                },
                None => {
                    return None;
                },
            },
            None => {
                let ed = Dict::new();
                proof {
                    ed.lemma_views();
                }
                ed
            },
        };
        let r = Tx { kind, from, to, payload, timestamp, extradata };
        proof {
            assert(r.deep_view().payload =~= tx_model(arg@).unwrap().payload);
            assert(r.deep_view().extradata =~= tx_model(arg@).unwrap().extradata);
        }
        Some(r)
    }
}

/// The amounts read from one balance entry sequence: each key's byte
/// content and each value as an unsigned amount; absent when an entry has
/// neither binary nor text key, or no integer value.
pub open spec fn balance_entries(ps: Seq<(ValModel, ValModel)>) -> Option<Seq<AmountModel>>
    decreases ps.len(),
{
    if ps.len() == 0 {
        Some(Seq::empty())
    } else {
        let cur = match ps[0].0 {
            ValModel::Bin(b) => Some(b),
            ValModel::Text(t) => Some(crate::value::text_bytes(t)),
            _ => None,
        };
        match cur {
            None => None,
            Some(cb) => if ps[0].1 is Int {
                match balance_entries(ps.drop_first()) {
                    None => None,
                    Some(rest) => Some(
                        seq![
                            AmountModel { currency: cb, amount: ps[0].1->Int_0 as u64 },
                        ] + rest,
                    ),
                }
            } else {
                None
            },
        }
    }
}

/// What a balance value yields: one amount per pair of a map value, in
/// order; any other value yields no amounts at all.
pub open spec fn balance_model(m: ValModel) -> Option<Seq<AmountModel>> {
    match m {
        ValModel::Pairs(ps) => balance_entries(ps),
        _ => Some(Seq::empty()),
    }
}

/// Reads an account balance from its decoded map value: currency bytes
/// and amount per pair. A value that is not a map holds no amounts; a map
/// with a malformed entry yields `None`.
pub fn balance_from_value(v: &Value) -> (r: Option<Vec<Amount>>)
    ensures
        match r {
            Some(out) => balance_model(v@) == Some(out.deep_view()),
            None => balance_model(v@) is None,
        },
{
    let pairs = match v.as_map() {
        Some(m) => m,
        None => {
            let out: Vec<Amount> = Vec::new();
            proof {
                assert(out.deep_view() =~= Seq::<AmountModel>::empty());
            }
            return Some(out);
        },
    };
    let ghost ps = v@->Pairs_0;
    let mut out: Vec<Amount> = Vec::new();
    let mut k: usize = 0;
    proof {
        assert(ps.skip(0) =~= ps);
        assert(out.deep_view() =~= Seq::<AmountModel>::empty());
        match balance_entries(ps) {
            Some(es) => {
                assert(out.deep_view() + es =~= es);
            },
            None => {},
        }
    }
    while k < pairs.len()
        invariant
            k <= pairs.len(),
            ps.len() == pairs.len(),
            forall|j: int| 0 <= j < ps.len() ==> #[trigger] ps[j] == (pairs@[j].0@, pairs@[j].1@),
            out.deep_view().len() == k as int,
            balance_entries(ps) == (match balance_entries(ps.skip(k as int)) {
                Some(es) => Some(out.deep_view() + es),
                None => None::<Seq<AmountModel>>,
            }),
        decreases pairs.len() - k,
    {
        proof {
            let tail = ps.skip(k as int);
            assert(tail[0] == ps[k as int]);
            assert(tail.drop_first() =~= ps.skip(k + 1));
        }
        let pair = &pairs[k];
        let currency = match pair.0.as_slice() {
            Some(b) => vstd::slice::slice_to_vec(b),
            None => {
                return None;
            },
        };
        let amount = match pair.1.as_u64() {
            Some(x) => x,
            None => {
                return None;
            },
        };
        let ghost am = AmountModel { currency: currency@, amount: amount };
        proof {
            assert forall|es2: Seq<AmountModel>|
                true implies out.deep_view() + (seq![am] + es2) == (out.deep_view() + seq![am])
                + es2 by {
                assert(out.deep_view() + (seq![am] + es2) =~= (out.deep_view() + seq![am]) + es2);
            }
        }
        let ghost prev = out.deep_view();
        out.push(Amount { currency, amount });
        proof {
            assert(out.deep_view() =~= prev + seq![am]);
        }
        k = k + 1;
    }
    proof {
        assert(ps.skip(ps.len() as int).len() == 0);
        assert(out.deep_view() + Seq::<AmountModel>::empty() =~= out.deep_view());
    }
    Some(out)
}

} // verus!
