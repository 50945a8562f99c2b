//! The dynamic value model: integers, UTF-8 text, and the tagged `Value`
//! union that can represent any decodable wire value.
use vstd::prelude::*;
use vstd::utf8::{encode_scalar, encode_utf8};

verus! {

broadcast use vstd::std_specs::vec::group_vec_axioms;

/// Internal representation of a wire integer: either a non-negative 64-bit
/// magnitude or a strictly negative signed 64-bit value, never both.
#[derive(Copy, Clone, Debug, PartialEq)]
enum IntPriv {
    PosInt(u64),
    NegInt(i64),
}

/// A wire-format integer, signed or unsigned, in the range `-(2^63) ..= 2^64 - 1`.
///
/// Its mathematical value is its view; the negative branch always holds a
/// strictly negative number, so the stored branch is determined by the sign.
#[derive(Copy, Clone, Debug, PartialEq)]
pub struct Integer {
    n: IntPriv,
}

impl View for Integer {
    type V = int;

    closed spec fn view(&self) -> int {
        match self.n {
            IntPriv::PosInt(u) => u as int,
            IntPriv::NegInt(i) => i as int,
        }
    }
}

/// The integer whose mathematical value is `v`, for `v` in the representable
/// range `-(2^63) ..= 2^64 - 1`.
pub closed spec fn spec_integer(v: int) -> Integer {
    if v >= 0 {
        Integer { n: IntPriv::PosInt(v as u64) }
    } else {
        Integer { n: IntPriv::NegInt(v as i64) }
    }
}

impl Integer {
    #[verifier::type_invariant]
    spec fn type_inv(self) -> bool {
        match self.n {
            IntPriv::PosInt(_) => true,
            IntPriv::NegInt(i) => i < 0,
        }
    }

    /// Returns `true` if the integer can be represented as `i64`.
    pub fn is_i64(&self) -> (r: bool)
        ensures
            r == (self@ <= i64::MAX),
    {
        proof {
            use_type_invariant(self);
        }
        match self.n {
            IntPriv::PosInt(n) => n <= i64::MAX as u64,
            IntPriv::NegInt(..) => true,
        }
    }

    /// Returns `true` if the integer can be represented as `u64`.
    pub fn is_u64(&self) -> (r: bool)
        ensures
            r == (self@ >= 0),
    {
        proof {
            use_type_invariant(self);
        }
        match self.n {
            IntPriv::PosInt(..) => true,
            IntPriv::NegInt(..) => false,
        }
    }

    /// The value as `i64`; a magnitude above `i64::MAX` wraps, two's complement.
    pub fn as_i64(&self) -> (r: Option<i64>)
        ensures
            r == Some(self@ as i64),
    {
        proof {
            use_type_invariant(self);
        }
        match self.n {
            IntPriv::PosInt(n) => Some(#[verifier::truncate] (n as i64)),
            IntPriv::NegInt(n) => Some(n),
        }
    }

    /// The value as `u64`; a negative value wraps, two's complement.
    pub fn as_u64(&self) -> (r: Option<u64>)
        ensures
            r == Some(self@ as u64),
    {
        proof {
            use_type_invariant(self);
        }
        match self.n {
            IntPriv::PosInt(n) => Some(n),
            IntPriv::NegInt(n) => Some(#[verifier::truncate] (n as u64)),
        }
    }

    /// Every integer's value lies in the representable range.
    pub proof fn lemma_in_range(self)
        ensures
            -0x8000_0000_0000_0000 <= self@ < 0x1_0000_0000_0000_0000,
    {
    }

    /// Constructs the integer for a non-negative 64-bit magnitude.
    pub fn of_u64(n: u64) -> (r: Integer)
        ensures
            r@ == n as int,
            r == spec_integer(n as int),
    {
        Integer { n: IntPriv::PosInt(n) }
    }

    /// Constructs the integer for a signed 64-bit value.
    pub fn of_i64(n: i64) -> (r: Integer)
        ensures
            r@ == n as int,
            r == spec_integer(n as int),
    {
        if n < 0 {
            Integer { n: IntPriv::NegInt(n) }
        } else {
            Integer { n: IntPriv::PosInt(n as u64) }
        }
    }
}

impl From<u8> for Integer {
    fn from(n: u8) -> (r: Self)
        ensures
            r@ == n as int,
    {
        Integer::of_u64(n as u64)
    }
}

impl vstd::std_specs::convert::FromSpecImpl<u8> for Integer {
    open spec fn obeys_from_spec() -> bool {
        true
    }

    open spec fn from_spec(v: u8) -> Integer {
        spec_integer(v as int)
    }
}

impl From<u16> for Integer {
    fn from(n: u16) -> (r: Self)
        ensures
            r@ == n as int,
    {
        Integer::of_u64(n as u64)
    }
}

impl vstd::std_specs::convert::FromSpecImpl<u16> for Integer {
    open spec fn obeys_from_spec() -> bool {
        true
    }

    open spec fn from_spec(v: u16) -> Integer {
        spec_integer(v as int)
    }
}

impl From<u32> for Integer {
    fn from(n: u32) -> (r: Self)
        ensures
            r@ == n as int,
    {
        Integer::of_u64(n as u64)
    }
}

impl vstd::std_specs::convert::FromSpecImpl<u32> for Integer {
    open spec fn obeys_from_spec() -> bool {
        true
    }

    open spec fn from_spec(v: u32) -> Integer {
        spec_integer(v as int)
    }
}

impl From<u64> for Integer {
    fn from(n: u64) -> (r: Self)
        ensures
            r@ == n as int,
    {
        Integer::of_u64(n)
    }
}

impl vstd::std_specs::convert::FromSpecImpl<u64> for Integer {
    open spec fn obeys_from_spec() -> bool {
        true
    }

    open spec fn from_spec(v: u64) -> Integer {
        spec_integer(v as int)
    }
}

impl From<usize> for Integer {
    fn from(n: usize) -> (r: Self)
        ensures
            r@ == n as int,
    {
        Integer::of_u64(n as u64)
    }
}

impl vstd::std_specs::convert::FromSpecImpl<usize> for Integer {
    open spec fn obeys_from_spec() -> bool {
        true
    }

    open spec fn from_spec(v: usize) -> Integer {
        spec_integer(v as int)
    }
}

impl From<i8> for Integer {
    fn from(n: i8) -> (r: Self)
        ensures
            r@ == n as int,
    {
        Integer::of_i64(n as i64)
    }
}

impl vstd::std_specs::convert::FromSpecImpl<i8> for Integer {
    open spec fn obeys_from_spec() -> bool {
        true
    }

    open spec fn from_spec(v: i8) -> Integer {
        spec_integer(v as int)
    }
}

impl From<i16> for Integer {
    fn from(n: i16) -> (r: Self)
        ensures
            r@ == n as int,
    {
        Integer::of_i64(n as i64)
    }
}

impl vstd::std_specs::convert::FromSpecImpl<i16> for Integer {
    open spec fn obeys_from_spec() -> bool {
        true
    }

    open spec fn from_spec(v: i16) -> Integer {
        spec_integer(v as int)
    }
}

impl From<i32> for Integer {
    fn from(n: i32) -> (r: Self)
        ensures
            r@ == n as int,
    {
        Integer::of_i64(n as i64)
    }
}

impl vstd::std_specs::convert::FromSpecImpl<i32> for Integer {
    open spec fn obeys_from_spec() -> bool {
        true
    }

    open spec fn from_spec(v: i32) -> Integer {
        spec_integer(v as int)
    }
}

impl From<i64> for Integer {
    fn from(n: i64) -> (r: Self)
        ensures
            r@ == n as int,
    {
        Integer::of_i64(n)
    }
}

impl vstd::std_specs::convert::FromSpecImpl<i64> for Integer {
    open spec fn obeys_from_spec() -> bool {
        true
    }

    open spec fn from_spec(v: i64) -> Integer {
        spec_integer(v as int)
    }
}

impl From<isize> for Integer {
    fn from(n: isize) -> (r: Self)
        ensures
            r@ == n as int,
    {
        Integer::of_i64(n as i64)
    }
}

impl vstd::std_specs::convert::FromSpecImpl<isize> for Integer {
    open spec fn obeys_from_spec() -> bool {
        true
    }

    open spec fn from_spec(v: isize) -> Integer {
        spec_integer(v as int)
    }
}

/// Relies on `String::from_utf8`: builds the string whose UTF-8 encoding is
/// exactly the given bytes, and fails exactly on bytes that are not valid
/// UTF-8.
#[verifier::external_body]
pub fn string_from_utf8(bytes: Vec<u8>) -> (r: Option<String>)
    ensures
        match r {
            Some(s) => encode_utf8(s@) == bytes@,
            None => !vstd::utf8::valid_utf8(bytes@),
        },
        vstd::utf8::valid_utf8(bytes@) ==> r is Some,
{
    match String::from_utf8(bytes) {
        Ok(s) => Some(s),
        Err(_) => None,
    }
}

/// Marker carried by text whose bytes are not valid UTF-8.
#[derive(Copy, Eq, PartialEq, Clone, Debug, Structural)]
pub struct Utf8Error {}

/// The mathematical content of a wire text value: either a sequence of
/// Unicode scalar values, or the raw bytes of a legacy, non-UTF-8 encoding.
pub enum TextModel {
    Chars(Seq<char>),
    Raw(Seq<u8>),
}

/// The byte sequence a text value contributes to the wire: the UTF-8
/// encoding of its characters, or its raw bytes unchanged.
pub open spec fn text_bytes(t: TextModel) -> Seq<u8> {
    match t {
        TextModel::Chars(cs) => encode_utf8(cs),
        TextModel::Raw(b) => b,
    }
}

/// A wire text value. Normally it holds valid UTF-8 text; to tolerate legacy
/// encodings it can also hold raw bytes paired with an error marker. The byte
/// content is recoverable losslessly in both cases.
#[derive(Debug, PartialEq)]
pub struct Utf8String {
    s: Result<String, (Vec<u8>, Utf8Error)>,
}

impl View for Utf8String {
    type V = TextModel;

    closed spec fn view(&self) -> TextModel {
        match self.s {
            Ok(s) => TextModel::Chars(s@),
            Err((b, _)) => TextModel::Raw(b@),
        }
    }
}

impl Utf8String {
    /// Returns `true` if the string is valid UTF-8.
    pub fn is_str(&self) -> (r: bool)
        ensures
            r == (self@ is Chars),
    {
        self.s.is_ok()
    }

    /// Returns `true` if the string holds an invalid UTF-8 sequence.
    pub fn is_err(&self) -> (r: bool)
        ensures
            r == (self@ is Raw),
    {
        self.s.is_err()
    }

    /// The string slice if the text is valid UTF-8, or else `None`.
    pub fn as_str(&self) -> (r: Option<&str>)
        ensures
            match r {
                Some(s) => self@ == TextModel::Chars(s@),
                None => self@ is Raw,
            },
    {
        match &self.s {
            Ok(s) => Some(s.as_str()),
            Err(..) => None,
        }
    }

    /// The error marker if the text holds an invalid UTF-8 sequence, or else `None`.
    pub fn as_err(&self) -> (r: Option<&Utf8Error>)
        ensures
            r is Some <==> self@ is Raw,
    {
        match &self.s {
            Ok(..) => None,
            Err((_, e)) => Some(e),
        }
    }

    /// The byte content of the text, whichever branch holds it.
    pub fn as_bytes(&self) -> (r: &[u8])
        ensures
            r@ == text_bytes(self@),
    {
        match &self.s {
            Ok(s) => s.as_str().as_bytes(),
            Err((b, _)) => b.as_slice(),
        }
    }

    /// Consumes the text, yielding the string if it is valid UTF-8, or else `None`.
    pub fn into_str(self) -> (r: Option<String>)
        ensures
            match r {
                Some(s) => self@ == TextModel::Chars(s@),
                None => self@ is Raw,
            },
    {
        match self.s {
            Ok(s) => Some(s),
            Err(..) => None,
        }
    }

    /// Consumes the text, yielding its byte content.
    pub fn into_bytes(self) -> (r: Vec<u8>)
        ensures
            r@ == text_bytes(self@),
    {
        match self.s {
            Ok(s) => vstd::string::StrSliceExecFns::as_bytes_vec(s.as_str()),
            Err((b, _)) => b,
        }
    }

    /// A borrowed twin of this text with the same content.
    pub fn as_ref(&self) -> (r: Utf8StringRef<'_>)
        ensures
            r@ == self@,
    {
        match &self.s {
            Ok(s) => Utf8StringRef { s: Ok(s.as_str()) },
            Err((buf, err)) => Utf8StringRef { s: Err((buf.as_slice(), *err)) },
        }
    }
}

impl Clone for Utf8String {
    /// Clones the text; the copy has the same content.
    fn clone(&self) -> (r: Self)
        ensures
            r@ == self@,
    {
        match &self.s {
            Ok(s) => Utf8String { s: Ok(s.clone()) },
            Err((b, e)) => Utf8String { s: Err((b.clone(), *e)) },
        }
    }
}

impl From<String> for Utf8String {
    fn from(val: String) -> (r: Self)
        ensures
            r@ == TextModel::Chars(val@),
    {
        Utf8String { s: Ok(val) }
    }
}

impl vstd::std_specs::convert::FromSpecImpl<String> for Utf8String {
    open spec fn obeys_from_spec() -> bool {
        true
    }

    open spec fn from_spec(v: String) -> Utf8String {
        spec_text(v)
    }
}

/// The text value holding the given valid UTF-8 string.
pub closed spec fn spec_text(s: String) -> Utf8String {
    Utf8String { s: Ok(s) }
}

impl<'a> From<&'a str> for Utf8String {
    fn from(val: &'a str) -> (r: Self)
        ensures
            r@ == TextModel::Chars(val@),
    {
        Utf8String { s: Ok(val.to_owned()) }
    }
}

impl<'a> vstd::std_specs::convert::FromSpecImpl<&'a str> for Utf8String {
    open spec fn obeys_from_spec() -> bool {
        false
    }

    open spec fn from_spec(v: &'a str) -> Utf8String {
        arbitrary()
    }
}

/// A non-owning twin of `Utf8String`: the same content, borrowed.
#[derive(Clone, Copy, Debug, PartialEq)]
pub struct Utf8StringRef<'a> {
    s: Result<&'a str, (&'a [u8], Utf8Error)>,
}

impl<'a> View for Utf8StringRef<'a> {
    type V = TextModel;

    closed spec fn view(&self) -> TextModel {
        match self.s {
            Ok(s) => TextModel::Chars(s@),
            Err((b, _)) => TextModel::Raw(b@),
        }
    }
}

impl<'a> Utf8StringRef<'a> {
    /// Returns `true` if the string is valid UTF-8.
    pub fn is_str(&self) -> (r: bool)
        ensures
            r == (self@ is Chars),
    {
        self.s.is_ok()
    }

    /// Returns `true` if the string holds an invalid UTF-8 sequence.
    pub fn is_err(&self) -> (r: bool)
        ensures
            r == (self@ is Raw),
    {
        self.s.is_err()
    }

    /// The string slice if the text is valid UTF-8, or else `None`.
    pub fn as_str(&self) -> (r: Option<&'a str>)
        ensures
            match r {
                Some(s) => self@ == TextModel::Chars(s@),
                None => self@ is Raw,
            },
    {
        match self.s {
            Ok(s) => Some(s),
            Err(..) => None,
        }
    }

    /// The error marker if the text holds an invalid UTF-8 sequence, or else `None`.
    pub fn as_err(&self) -> (r: Option<&Utf8Error>)
        ensures
            r is Some <==> self@ is Raw,
    {
        match &self.s {
            Ok(..) => None,
            Err((_, e)) => Some(e),
        }
    }

    /// The byte content of the text, whichever branch holds it.
    pub fn as_bytes(&self) -> (r: &'a [u8])
        ensures
            r@ == text_bytes(self@),
    {
        match self.s {
            Ok(s) => s.as_bytes(),
            Err((b, _)) => b,
        }
    }

    /// Yields the string as an owned value if it is valid UTF-8, or else `None`.
    pub fn into_str(self) -> (r: Option<String>)
        ensures
            match r {
                Some(s) => self@ == TextModel::Chars(s@),
                None => self@ is Raw,
            },
    {
        match self.s {
            Ok(s) => Some(s.to_owned()),
            Err(..) => None,
        }
    }

    /// Yields the byte content as an owned vector.
    pub fn into_bytes(self) -> (r: Vec<u8>)
        ensures
            r@ == text_bytes(self@),
    {
        match self.s {
            Ok(s) => vstd::string::StrSliceExecFns::as_bytes_vec(s),
            Err((b, _)) => vstd::slice::slice_to_vec(b),
        }
    }
}

impl<'a> From<&'a str> for Utf8StringRef<'a> {
    fn from(val: &'a str) -> (r: Self)
        ensures
            r@ == TextModel::Chars(val@),
    {
        Utf8StringRef { s: Ok(val) }
    }
}

impl<'a> vstd::std_specs::convert::FromSpecImpl<&'a str> for Utf8StringRef<'a> {
    open spec fn obeys_from_spec() -> bool {
        false
    }

    open spec fn from_spec(v: &'a str) -> Utf8StringRef<'a> {
        arbitrary()
    }
}

impl<'a> From<Utf8StringRef<'a>> for Utf8String {
    /// The owning twin of a borrowed text, with the same content.
    fn from(val: Utf8StringRef<'a>) -> (r: Self)
        ensures
            r@ == val@,
    {
        match val.s {
            Ok(s) => Utf8String { s: Ok(s.to_owned()) },
            Err((buf, err)) => Utf8String { s: Err((vstd::slice::slice_to_vec(buf), err)) },
        }
    }
}

impl<'a> vstd::std_specs::convert::FromSpecImpl<Utf8StringRef<'a>> for Utf8String {
    open spec fn obeys_from_spec() -> bool {
        false
    }

    open spec fn from_spec(v: Utf8StringRef<'a>) -> Utf8String {
        arbitrary()
    }
}

/// The mathematical content of any wire value: the view of `Value`.
///
/// A map is an ordered sequence of key-value pairs — not a set-keyed
/// dictionary: duplicate keys are permitted and order is preserved exactly.
pub enum ValModel {
    Nil,
    Bool(bool),
    Int(int),
    Text(TextModel),
    Bin(Seq<u8>),
    Arr(Seq<ValModel>),
    Pairs(Seq<(ValModel, ValModel)>),
    Ext(int, Seq<u8>),
}

/// The element-wise view of a sequence of values.
pub open spec fn seq_view(s: Seq<Value>) -> Seq<ValModel> {
    Seq::new(s.len(), |i: int| s[i]@)
}

/// The element-wise view of a sequence of key-value pairs.
pub open spec fn pairs_view(s: Seq<(Value, Value)>) -> Seq<(ValModel, ValModel)> {
    Seq::new(s.len(), |i: int| (s[i].0@, s[i].1@))
}

/// Any wire value: a closed, tagged union with one variant for each kind
/// of value the wire format can carry.
#[derive(Debug, PartialEq)]
pub enum Value {
    /// Nil represents nil.
    Nil,
    /// A boolean.
    Boolean(bool),
    /// An integer in the range `-(2^63) ..= 2^64 - 1`.
    Integer(Integer),
    /// A text value, normally valid UTF-8.
    String(Utf8String),
    /// A raw byte array.
    Binary(Vec<u8>),
    /// An ordered sequence of values.
    Array(Vec<Value>),
    /// Ordered key-value pairs; never reordered or deduplicated.
    Mapping(Vec<(Value, Value)>),
    /// An extension value: an application-defined type tag and raw bytes.
    Ext(i8, Vec<u8>),
}

/// The mathematical content of a value; `Value`'s view.
pub open spec fn val_model(v: Value) -> ValModel
    decreases v,
{
    match v {
        Value::Nil => ValModel::Nil,
        Value::Boolean(b) => ValModel::Bool(b),
        Value::Integer(i) => ValModel::Int(i@),
        Value::String(s) => ValModel::Text(s@),
        Value::Binary(b) => ValModel::Bin(b@),
        Value::Array(a) => ValModel::Arr(
            Seq::new(
                a@.len(),
                |i: int|
                    if 0 <= i < a@.len() {
                        val_model(a@[i])
                    } else {
                        ValModel::Nil
                    },
            ),
        ),
        Value::Mapping(m) => ValModel::Pairs(
            Seq::new(
                m@.len(),
                |i: int|
                    if 0 <= i < m@.len() {
                        (val_model(m@[i].0), val_model(m@[i].1))
                    } else {
                        (ValModel::Nil, ValModel::Nil)
                    },
            ),
        ),
        Value::Ext(t, b) => ValModel::Ext(t as int, b@),
    }
}

impl View for Value {
    type V = ValModel;

    open spec fn view(&self) -> ValModel {
        val_model(*self)
    }
}

impl DeepView for Value {
    type V = ValModel;

    open spec fn deep_view(&self) -> ValModel {
        val_model(*self)
    }
}

impl Value {
    /// The views of an `Array`'s elements are the element views.
    pub proof fn lemma_view_arr(a: Vec<Value>)
        ensures
            Value::Array(a)@ == ValModel::Arr(seq_view(a@)),
    {
        let s = Value::Array(a)@->Arr_0;
        assert(s =~= seq_view(a@));
    }

    /// The views of a `Map`'s pairs are the pair views.
    pub proof fn lemma_view_map(m: Vec<(Value, Value)>)
        ensures
            Value::Mapping(m)@ == ValModel::Pairs(pairs_view(m@)),
    {
        let s = Value::Mapping(m)@->Pairs_0;
        assert(s =~= pairs_view(m@));
    }

    /// Returns `true` if the value is nil.
    pub fn is_nil(&self) -> (r: bool)
        ensures
            r == (self@ is Nil),
    {
        if let Value::Nil = *self {
            true
        } else {
            false
        }
    }

    /// Returns `true` if the value is a boolean.
    pub fn is_bool(&self) -> (r: bool)
        ensures
            r == (self@ is Bool),
    {
        self.as_bool().is_some()
    }

    /// Returns `true` if the value is an integer representable as `i64`.
    pub fn is_i64(&self) -> (r: bool)
        ensures
            r == (self@ is Int && self@->Int_0 <= i64::MAX),
    {
        if let Value::Integer(v) = self {
            v.is_i64()
        } else {
            false
        }
    }

    /// Returns `true` if the value is an integer representable as `u64`.
    pub fn is_u64(&self) -> (r: bool)
        ensures
            r == (self@ is Int && self@->Int_0 >= 0),
    {
        if let Value::Integer(v) = self {
            v.is_u64()
        } else {
            false
        }
    }

    /// Returns `true` if the value is an integer.
    pub fn is_number(&self) -> (r: bool)
        ensures
            r == (self@ is Int),
    {
        match *self {
            Value::Integer(..) => true,
            _ => false,
        }
    }

    /// Returns `true` if the value is valid UTF-8 text.
    pub fn is_str(&self) -> (r: bool)
        ensures
            r == (self@ matches ValModel::Text(t) && t is Chars),
    {
        self.as_str().is_some()
    }

    /// Returns `true` if the value carries raw bytes: a binary or a text value.
    pub fn is_bin(&self) -> (r: bool)
        ensures
            r == (self@ is Bin || self@ is Text),
    {
        self.as_slice().is_some()
    }

    /// Returns `true` if the value is an array.
    pub fn is_array(&self) -> (r: bool)
        ensures
            r == (self@ is Arr),
    {
        self.as_array().is_some()
    }

    /// Returns `true` if the value is a map.
    pub fn is_map(&self) -> (r: bool)
        ensures
            r == (self@ is Pairs),
    {
        self.as_map().is_some()
    }

    /// Returns `true` if the value is an extension value.
    pub fn is_ext(&self) -> (r: bool)
        ensures
            r == (self@ is Ext),
    {
        self.as_ext().is_some()
    }

    /// The boolean if the value is one, or else `None`.
    pub fn as_bool(&self) -> (r: Option<bool>)
        ensures
            r == (if self@ is Bool {
                Some(self@->Bool_0)
            } else {
                None::<bool>
            }),
    {
        if let Value::Boolean(val) = *self {
            Some(val)
        } else {
            None
        }
    }

    /// The integer as `i64` if the value is an integer, or else `None`;
    /// a magnitude above `i64::MAX` wraps, two's complement.
    pub fn as_i64(&self) -> (r: Option<i64>)
        ensures
            r == (if self@ is Int {
                Some(self@->Int_0 as i64)
            } else {
                None::<i64>
            }),
    {
        match self {
            Value::Integer(n) => n.as_i64(),
            _ => None,
        }
    }

    /// The integer as `u64` if the value is an integer, or else `None`;
    /// a negative value wraps, two's complement.
    pub fn as_u64(&self) -> (r: Option<u64>)
        ensures
            r == (if self@ is Int {
                Some(self@->Int_0 as u64)
            } else {
                None::<u64>
            }),
    {
        match self {
            Value::Integer(n) => n.as_u64(),
            _ => None,
        }
    }

    /// The string slice if the value is valid UTF-8 text, or else `None`.
    pub fn as_str(&self) -> (r: Option<&str>)
        ensures
            match r {
                Some(s) => self@ == ValModel::Text(TextModel::Chars(s@)),
                None => !(self@ matches ValModel::Text(t) && t is Chars),
            },
    {
        if let Value::String(val) = self {
            val.as_str()
        } else {
            None
        }
    }

    /// The byte content if the value is a binary or a text value, or else `None`.
    pub fn as_slice(&self) -> (r: Option<&[u8]>)
        ensures
            match r {
                Some(b) => (self@ matches ValModel::Bin(bb) && b@ == bb) || (self@
                    matches ValModel::Text(t) && b@ == text_bytes(t)),
                None => !(self@ is Bin || self@ is Text),
            },
    {
        if let Value::Binary(val) = self {
            Some(val.as_slice())
        } else if let Value::String(val) = self {
            Some(val.as_bytes())
        } else {
            None
        }
    }

    /// The element vector if the value is an array, or else `None`.
    pub fn as_array(&self) -> (r: Option<&Vec<Value>>)
        ensures
            match r {
                Some(a) => self@ == ValModel::Arr(seq_view(a@)),
                None => !(self@ is Arr),
            },
    {
        proof {
            if self@ is Arr {
                if let Value::Array(a) = self {
                    Value::lemma_view_arr(*a);
                }
            }
        }
        if let Value::Array(array) = self {
            Some(array)
        } else {
            None
        }
    }

    /// The pair vector if the value is a map, or else `None`.
    pub fn as_map(&self) -> (r: Option<&Vec<(Value, Value)>>)
        ensures
            match r {
                Some(m) => self@ == ValModel::Pairs(pairs_view(m@)),
                None => !(self@ is Pairs),
            },
    {
        proof {
            if self@ is Pairs {
                if let Value::Mapping(m) = self {
                    Value::lemma_view_map(*m);
                }
            }
        }
        if let Value::Mapping(map) = self {
            Some(map)
        } else {
            None
        }
    }

    /// The type tag and bytes if the value is an extension value, or else `None`.
    pub fn as_ext(&self) -> (r: Option<(i8, &[u8])>)
        ensures
            match r {
                Some((t, b)) => self@ == ValModel::Ext(t as int, b@),
                None => !(self@ is Ext),
            },
    {
        if let Value::Ext(ty, buf) = self {
            Some((*ty, buf.as_slice()))
        } else {
            None
        }
    }

    /// The element at the given index if the value is an array and the index
    /// is within it, or else `None`.
    pub fn get(&self, index: usize) -> (r: Option<&Value>)
        ensures
            match r {
                Some(v) => self@ matches ValModel::Arr(s) && index < s.len() && v@ == s[index as int],
                None => !(self@ matches ValModel::Arr(s) && index < s.len()),
            },
    {
        proof {
            if self@ is Arr {
                if let Value::Array(a) = self {
                    Value::lemma_view_arr(*a);
                }
            }
        }
        if let Value::Array(array) = self {
            if index < array.len() {
                Some(&array[index])
            } else {
                None
            }
        } else {
            None
        }
    }
}

impl Clone for Value {
    /// Clones the value; the copy has the same content.
    fn clone(&self) -> (r: Self)
        ensures
            r@ == self@,
        decreases self,
    {
        match self {
            Value::Nil => Value::Nil,
            Value::Boolean(b) => Value::Boolean(*b),
            Value::Integer(i) => Value::Integer(*i),
            Value::String(s) => Value::String(s.clone()),
            Value::Binary(b) => Value::Binary(b.clone()),
            Value::Array(a) => {
                let mut out: Vec<Value> = Vec::new();
                let mut k: usize = 0;
                while k < a.len()
                    invariant
                        k <= a.len(),
                        out@.len() == k as int,
                        forall|j: int| 0 <= j < k ==> out@[j]@ == a@[j]@,
                    decreases a.len() - k,
                {
                    proof {
                        assert(decreases_to!(*self => a@[k as int])) by {
                            assert(*self is Array);
                            assert(self->Array_0 == *a);
                            assert(decreases_to!(*self => self->Array_0));
                            assert(decreases_to!(*a => a@));
                            assert(decreases_to!(a@ => a@[k as int]));
                        }
                    }
                    out.push(a[k].clone());
                    k = k + 1;
                }
                proof {
                    Value::lemma_view_arr(*a);
                    Value::lemma_view_arr(out);
                    assert(seq_view(out@) =~= seq_view(a@));
                }
                Value::Array(out)
            },
            Value::Mapping(m) => {
                let mut out: Vec<(Value, Value)> = Vec::new();
                let mut k: usize = 0;
                while k < m.len()
                    invariant
                        k <= m.len(),
                        out@.len() == k as int,
                        forall|j: int| 0 <= j < k ==> out@[j].0@ == m@[j].0@ && out@[j].1@
                            == m@[j].1@,
                    decreases m.len() - k,
                {
                    proof {
                        assert(*self == Value::Mapping(*m));
                        assert(decreases_to!(*self => self->Mapping_0));
                        assert(decreases_to!(*m => m@));
                        assert(decreases_to!(m@ => m@[k as int]));
                        assert(decreases_to!(m@[k as int] => m@[k as int].0));
                        assert(decreases_to!(m@[k as int] => m@[k as int].1));
                        assert(decreases_to!(*self => m@[k as int].0));
                        assert(decreases_to!(*self => m@[k as int].1));
                    }
                    let pair = &m[k];
                    out.push((pair.0.clone(), pair.1.clone()));
                    k = k + 1;
                }
                proof {
                    Value::lemma_view_map(*m);
                    Value::lemma_view_map(out);
                    assert(pairs_view(out@) =~= pairs_view(m@));
                }
                Value::Mapping(out)
            },
            Value::Ext(t, b) => Value::Ext(*t, b.clone()),
        }
    }
}

/// The value holding the given integer.
pub open spec fn spec_value_int(v: int) -> Value {
    Value::Integer(spec_integer(v))
}

/// The value holding the given valid UTF-8 string.
pub open spec fn spec_value_text(s: String) -> Value {
    Value::String(spec_text(s))
}

impl From<bool> for Value {
    fn from(v: bool) -> (r: Self)
        ensures
            r@ == ValModel::Bool(v),
    {
        Value::Boolean(v)
    }
}

impl vstd::std_specs::convert::FromSpecImpl<bool> for Value {
    open spec fn obeys_from_spec() -> bool {
        true
    }

    open spec fn from_spec(v: bool) -> Value {
        Value::Boolean(v)
    }
}

impl From<u8> for Value {
    fn from(v: u8) -> (r: Self)
        ensures
            r@ == ValModel::Int(v as int),
    {
        Value::Integer(Integer::of_u64(v as u64))
    }
}

impl vstd::std_specs::convert::FromSpecImpl<u8> for Value {
    open spec fn obeys_from_spec() -> bool {
        true
    }

    open spec fn from_spec(v: u8) -> Value {
        spec_value_int(v as int)
    }
}

impl From<u16> for Value {
    fn from(v: u16) -> (r: Self)
        ensures
            r@ == ValModel::Int(v as int),
    {
        Value::Integer(Integer::of_u64(v as u64))
    }
}

impl vstd::std_specs::convert::FromSpecImpl<u16> for Value {
    open spec fn obeys_from_spec() -> bool {
        true
    }

    open spec fn from_spec(v: u16) -> Value {
        spec_value_int(v as int)
    }
}

impl From<u32> for Value {
    fn from(v: u32) -> (r: Self)
        ensures
            r@ == ValModel::Int(v as int),
    {
        Value::Integer(Integer::of_u64(v as u64))
    }
}

impl vstd::std_specs::convert::FromSpecImpl<u32> for Value {
    open spec fn obeys_from_spec() -> bool {
        true
    }

    open spec fn from_spec(v: u32) -> Value {
        spec_value_int(v as int)
    }
}

impl From<u64> for Value {
    fn from(v: u64) -> (r: Self)
        ensures
            r@ == ValModel::Int(v as int),
    {
        Value::Integer(Integer::of_u64(v))
    }
}

impl vstd::std_specs::convert::FromSpecImpl<u64> for Value {
    open spec fn obeys_from_spec() -> bool {
        true
    }

    open spec fn from_spec(v: u64) -> Value {
        spec_value_int(v as int)
    }
}

impl From<usize> for Value {
    fn from(v: usize) -> (r: Self)
        ensures
            r@ == ValModel::Int(v as int),
    {
        Value::Integer(Integer::of_u64(v as u64))
    }
}

impl vstd::std_specs::convert::FromSpecImpl<usize> for Value {
    open spec fn obeys_from_spec() -> bool {
        true
    }

    open spec fn from_spec(v: usize) -> Value {
        spec_value_int(v as int)
    }
}

impl From<i8> for Value {
    fn from(v: i8) -> (r: Self)
        ensures
            r@ == ValModel::Int(v as int),
    {
        Value::Integer(Integer::of_i64(v as i64))
    }
}

impl vstd::std_specs::convert::FromSpecImpl<i8> for Value {
    open spec fn obeys_from_spec() -> bool {
        true
    }

    open spec fn from_spec(v: i8) -> Value {
        spec_value_int(v as int)
    }
}

impl From<i16> for Value {
    fn from(v: i16) -> (r: Self)
        ensures
            r@ == ValModel::Int(v as int),
    {
        Value::Integer(Integer::of_i64(v as i64))
    }
}

impl vstd::std_specs::convert::FromSpecImpl<i16> for Value {
    open spec fn obeys_from_spec() -> bool {
        true
    }

    open spec fn from_spec(v: i16) -> Value {
        spec_value_int(v as int)
    }
}

impl From<i32> for Value {
    fn from(v: i32) -> (r: Self)
        ensures
            r@ == ValModel::Int(v as int),
    {
        Value::Integer(Integer::of_i64(v as i64))
    }
}

impl vstd::std_specs::convert::FromSpecImpl<i32> for Value {
    open spec fn obeys_from_spec() -> bool {
        true
    }

    open spec fn from_spec(v: i32) -> Value {
        spec_value_int(v as int)
    }
}

impl From<i64> for Value {
    fn from(v: i64) -> (r: Self)
        ensures
            r@ == ValModel::Int(v as int),
    {
        Value::Integer(Integer::of_i64(v))
    }
}

impl vstd::std_specs::convert::FromSpecImpl<i64> for Value {
    open spec fn obeys_from_spec() -> bool {
        true
    }

    open spec fn from_spec(v: i64) -> Value {
        spec_value_int(v as int)
    }
}

impl From<isize> for Value {
    fn from(v: isize) -> (r: Self)
        ensures
            r@ == ValModel::Int(v as int),
    {
        Value::Integer(Integer::of_i64(v as i64))
    }
}

impl vstd::std_specs::convert::FromSpecImpl<isize> for Value {
    open spec fn obeys_from_spec() -> bool {
        true
    }

    open spec fn from_spec(v: isize) -> Value {
        spec_value_int(v as int)
    }
}

impl From<String> for Value {
    fn from(v: String) -> (r: Self)
        ensures
            r@ == ValModel::Text(TextModel::Chars(v@)),
    {
        Value::String(Utf8String::from(v))
    }
}

impl vstd::std_specs::convert::FromSpecImpl<String> for Value {
    open spec fn obeys_from_spec() -> bool {
        true
    }

    open spec fn from_spec(v: String) -> Value {
        spec_value_text(v)
    }
}

impl<'a> From<&'a str> for Value {
    fn from(v: &'a str) -> (r: Self)
        ensures
            r@ == ValModel::Text(TextModel::Chars(v@)),
    {
        Value::String(Utf8String::from(v))
    }
}

impl<'a> vstd::std_specs::convert::FromSpecImpl<&'a str> for Value {
    open spec fn obeys_from_spec() -> bool {
        false
    }

    open spec fn from_spec(v: &'a str) -> Value {
        arbitrary()
    }
}

impl<'a> From<&'a [u8]> for Value {
    fn from(v: &'a [u8]) -> (r: Self)
        ensures
            r@ == ValModel::Bin(v@),
    {
        Value::Binary(vstd::slice::slice_to_vec(v))
    }
}

impl<'a> vstd::std_specs::convert::FromSpecImpl<&'a [u8]> for Value {
    open spec fn obeys_from_spec() -> bool {
        false
    }

    open spec fn from_spec(v: &'a [u8]) -> Value {
        arbitrary()
    }
}

impl From<Vec<Value>> for Value {
    fn from(v: Vec<Value>) -> (r: Self)
        ensures
            r@ == ValModel::Arr(seq_view(v@)),
    {
        proof {
            Value::lemma_view_arr(v);
        }
        Value::Array(v)
    }
}

impl vstd::std_specs::convert::FromSpecImpl<Vec<Value>> for Value {
    open spec fn obeys_from_spec() -> bool {
        true
    }

    open spec fn from_spec(v: Vec<Value>) -> Value {
        Value::Array(v)
    }
}

impl From<()> for Value {
    fn from(v: ()) -> (r: Self)
        ensures
            r@ == ValModel::Nil,
    {
        Value::Nil
    }
}

impl vstd::std_specs::convert::FromSpecImpl<()> for Value {
    open spec fn obeys_from_spec() -> bool {
        true
    }

    open spec fn from_spec(v: ()) -> Value {
        Value::Nil
    }
}

/// Encoding one more character appends that character's encoding.
pub proof fn lemma_encode_utf8_push(cs: Seq<char>, c: char)
    ensures
        encode_utf8(cs.push(c)) == encode_utf8(cs) + encode_scalar(c as u32),
    decreases cs.len(),
{
    if cs.len() == 0 {
        reveal_with_fuel(encode_utf8, 3);
        assert(cs.push(c)[0] == c);
        assert(cs.push(c).drop_first() =~= Seq::<char>::empty());
        assert(encode_utf8(cs.push(c)) =~= encode_utf8(cs) + encode_scalar(c as u32));
    } else {
        assert(cs.push(c)[0] == cs[0]);
        assert(cs.push(c).drop_first() =~= cs.drop_first().push(c));
        lemma_encode_utf8_push(cs.drop_first(), c);
        assert(encode_utf8(cs.push(c)) =~= encode_utf8(cs) + encode_scalar(c as u32));
    }
}

/// Encoding a concatenation concatenates the encodings.
pub proof fn lemma_encode_utf8_concat(a: Seq<char>, b: Seq<char>)
    ensures
        encode_utf8(a + b) == encode_utf8(a) + encode_utf8(b),
    decreases a.len(),
{
    if a.len() == 0 {
        reveal_with_fuel(encode_utf8, 2);
        assert(a + b =~= b);
        assert(encode_utf8(a) + encode_utf8(b) =~= encode_utf8(b));
    } else {
        assert((a + b)[0] == a[0]);
        assert((a + b).drop_first() =~= a.drop_first() + b);
        lemma_encode_utf8_concat(a.drop_first(), b);
        assert(encode_utf8(a + b) =~= encode_utf8(a) + encode_utf8(b));
    }
}

/// Appends the UTF-8 encoding of one character.
pub fn push_char_utf8(out: &mut Vec<u8>, c: char)
    ensures
        final(out)@ == old(out)@ + encode_scalar(c as u32),
{
    let u = c as u32;
    proof {
        vstd::utf8::char_is_scalar(c);
    }
    if u <= 0x7F {
        out.push((u & 0x7F) as u8);
    } else if u <= 0x7FF {
        out.push(0xC0u8 | ((u >> 6) & 0x1F) as u8);
        out.push(0x80u8 | (u & 0x3F) as u8);
    } else if u <= 0xFFFF {
        out.push(0xE0u8 | ((u >> 12) & 0x0F) as u8);
        out.push(0x80u8 | ((u >> 6) & 0x3F) as u8);
        out.push(0x80u8 | (u & 0x3F) as u8);
    } else {
        out.push(0xF0u8 | ((u >> 18) & 0x7) as u8);
        out.push(0x80u8 | ((u >> 12) & 0x3F) as u8);
        out.push(0x80u8 | ((u >> 6) & 0x3F) as u8);
        out.push(0x80u8 | (u & 0x3F) as u8);
    }
    proof {
        assert(out@ =~= old(out)@ + encode_scalar(u));
    }
}

/// Checks executably that every text value inside `v` is valid UTF-8 —
/// the condition under which `v` can be encoded at all.
pub fn text_ok_check(v: &Value) -> (r: bool)
    ensures
        r == crate::wire::text_ok(v@),
    decreases *v,
{
    match v {
        Value::Nil => true,
        Value::Boolean(_) => true,
        Value::Integer(_) => true,
        Value::String(s) => s.is_str(),
        Value::Binary(_) => true,
        Value::Array(a) => {
            proof {
                Value::lemma_view_arr(*a);
                assert(decreases_to!(*v => *a)) by {
                    assert(*v is Array);
                }
            }
            text_ok_check_list(a)
        },
        Value::Mapping(m) => {
            proof {
                Value::lemma_view_map(*m);
                assert(decreases_to!(*v => *m)) by {
                    assert(*v is Mapping);
                }
            }
            text_ok_check_pairs(m)
        },
        Value::Ext(_, _) => true,
    }
}

/// Checks that every text value inside a list of values is valid UTF-8.
fn text_ok_check_list(a: &Vec<Value>) -> (r: bool)
    ensures
        r == crate::wire::text_ok(ValModel::Arr(seq_view(a@))),
    decreases *a,
{
    let ghost s = seq_view(a@);
    let mut k: usize = 0;
    while k < a.len()
        invariant
            k <= a.len(),
            forall|j: int| 0 <= j < k ==> crate::wire::text_ok(#[trigger] s[j]),
        decreases a.len() - k,
    {
        proof {
            assert(decreases_to!(*a => a@[k as int])) by {
                assert(decreases_to!(*a => a@));
                assert(decreases_to!(a@ => a@[k as int]));
            }
        }
        if !text_ok_check(&a[k]) {
            proof {
                assert(!crate::wire::text_ok(s[k as int]));
                if crate::wire::text_ok(ValModel::Arr(s)) {
                    crate::wire::lemma_text_ok_arr_elem(s, k as int);
                }
            }
            return false;
        }
        proof {
            assert(crate::wire::text_ok(s[k as int]));
        }
        k = k + 1;
    }
    proof {
        crate::wire::lemma_text_ok_arr_intro(s);
    }
    true
}

/// Checks that every text value inside a list of key-value pairs is valid
/// UTF-8.
fn text_ok_check_pairs(m: &Vec<(Value, Value)>) -> (r: bool)
    ensures
        r == crate::wire::text_ok(ValModel::Pairs(pairs_view(m@))),
    decreases *m,
{
    let ghost ps = pairs_view(m@);
    let mut k: usize = 0;
    while k < m.len()
        invariant
            k <= m.len(),
            forall|j: int|
                0 <= j < k ==> crate::wire::text_ok(#[trigger] ps[j].0) && crate::wire::text_ok(
                    ps[j].1,
                ),
        decreases m.len() - k,
    {
        proof {
            assert(decreases_to!(*m => m@));
            assert(decreases_to!(m@ => m@[k as int]));
            assert(decreases_to!(m@[k as int] => m@[k as int].0));
            assert(decreases_to!(m@[k as int] => m@[k as int].1));
            assert(ps[k as int] == (m@[k as int].0@, m@[k as int].1@));
        }
        let pair = &m[k];
        if !text_ok_check(&pair.0) {
            proof {
                assert(!crate::wire::text_ok(ps[k as int].0));
                if crate::wire::text_ok(ValModel::Pairs(ps)) {
                    crate::wire::lemma_text_ok_pairs_elem(ps, k as int);
                }
            }
            return false;
        }
        if !text_ok_check(&pair.1) {
            proof {
                assert(!crate::wire::text_ok(ps[k as int].1));
                if crate::wire::text_ok(ValModel::Pairs(ps)) {
                    crate::wire::lemma_text_ok_pairs_elem(ps, k as int);
                }
            }
            return false;
        }
        proof {
            assert(crate::wire::text_ok(ps[k as int].0) && crate::wire::text_ok(ps[k as int].1));
        }
        k = k + 1;
    }
    proof {
        crate::wire::lemma_text_ok_pairs_intro(ps);
    }
    true
}

} // verus!
