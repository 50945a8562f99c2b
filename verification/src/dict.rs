//! An ordered map from text keys to dynamic values, kept sorted by key:
//! the key-sorted structure that map conversions go through. Keys are
//! unique; insertion replaces the value of an existing key.
use vstd::prelude::*;
use vstd::utf8::encode_utf8;

use crate::convert::FromValue;
use crate::value::{pairs_view, TextModel, Utf8String, ValModel, Value};

verus! {

/// Strict lexicographic order on byte sequences.
pub open spec fn bytes_lt(a: Seq<u8>, b: Seq<u8>) -> bool
    decreases a.len(),
{
    if b.len() == 0 {
        false
    } else if a.len() == 0 {
        true
    } else if a[0] < b[0] {
        true
    } else if a[0] > b[0] {
        false
    } else {
        bytes_lt(a.drop_first(), b.drop_first())
    }
}

/// Strict order on strings: lexicographic on their UTF-8 bytes, the order
/// `String` itself sorts by.
pub open spec fn str_lt(a: Seq<char>, b: Seq<char>) -> bool {
    bytes_lt(encode_utf8(a), encode_utf8(b))
}

/// The order is irreflexive.
pub proof fn lemma_bytes_lt_irrefl(a: Seq<u8>)
    ensures
        !bytes_lt(a, a),
    decreases a.len(),
{
    if a.len() > 0 {
        lemma_bytes_lt_irrefl(a.drop_first());
    }
}

/// The order is asymmetric.
pub proof fn lemma_bytes_lt_asym(a: Seq<u8>, b: Seq<u8>)
    requires
        bytes_lt(a, b),
    ensures
        !bytes_lt(b, a),
    decreases a.len(),
{
    if a.len() > 0 && b.len() > 0 && a[0] == b[0] {
        lemma_bytes_lt_asym(a.drop_first(), b.drop_first());
    }
}

/// The order is transitive.
pub proof fn lemma_bytes_lt_trans(a: Seq<u8>, b: Seq<u8>, c: Seq<u8>)
    requires
        bytes_lt(a, b),
        bytes_lt(b, c),
    ensures
        bytes_lt(a, c),
    decreases a.len(),
{
    if a.len() > 0 && b.len() > 0 && c.len() > 0 && a[0] == b[0] && b[0] == c[0] {
        lemma_bytes_lt_trans(a.drop_first(), b.drop_first(), c.drop_first());
    }
}

/// The order is total: two unordered sequences are equal.
pub proof fn lemma_bytes_lt_total(a: Seq<u8>, b: Seq<u8>)
    requires
        !bytes_lt(a, b),
        !bytes_lt(b, a),
    ensures
        a == b,
    decreases a.len(),
{
    if a.len() > 0 && b.len() > 0 {
        lemma_bytes_lt_total(a.drop_first(), b.drop_first());
        assert(a =~= seq![a[0]] + a.drop_first());
        assert(b =~= seq![b[0]] + b.drop_first());
    } else {
        assert(a =~= b);
    }
}

/// Skipping an equal prefix does not change the comparison.
proof fn lemma_bytes_lt_skip(a: Seq<u8>, b: Seq<u8>, i: int)
    requires
        0 <= i <= a.len(),
        i <= b.len(),
        a.subrange(0, i) == b.subrange(0, i),
    ensures
        bytes_lt(a, b) == bytes_lt(a.skip(i), b.skip(i)),
    decreases i,
{
    if i > 0 {
        assert(a.subrange(0, i)[0] == a[0] && b.subrange(0, i)[0] == b[0]);
        assert(a.drop_first().subrange(0, i - 1) =~= a.subrange(0, i).drop_first());
        assert(b.drop_first().subrange(0, i - 1) =~= b.subrange(0, i).drop_first());
        lemma_bytes_lt_skip(a.drop_first(), b.drop_first(), i - 1);
        assert(a.drop_first().skip(i - 1) =~= a.skip(i));
        assert(b.drop_first().skip(i - 1) =~= b.skip(i));
    } else {
        assert(a.skip(0) =~= a);
        assert(b.skip(0) =~= b);
    }
}

/// Three-way comparison of byte slices in lexicographic order.
fn cmp_bytes(a: &[u8], b: &[u8]) -> (r: i32)
    ensures
        r == -1 || r == 0 || r == 1,
        (r == -1) == bytes_lt(a@, b@),
        (r == 1) == bytes_lt(b@, a@),
        (r == 0) == (a@ == b@),
{
    let alen = a.len();
    let blen = b.len();
    let min: usize = if alen < blen {
        alen
    } else {
        blen
    };
    let mut i: usize = 0;
    while i < min
        invariant
            i <= min,
            min <= a@.len() && min <= b@.len(),
            min == (if a@.len() < b@.len() {
                a@.len()
            } else {
                b@.len()
            }),
            a@.subrange(0, i as int) =~= b@.subrange(0, i as int),
        decreases min - i,
    {
        proof {
            lemma_bytes_lt_skip(a@, b@, i as int);
            lemma_bytes_lt_skip(b@, a@, i as int);
        }
        if a[i] < b[i] {
            proof {
                assert(a@.skip(i as int)[0] == a@[i as int]);
                assert(b@.skip(i as int)[0] == b@[i as int]);
                assert(bytes_lt(a@.skip(i as int), b@.skip(i as int)));
                assert(!bytes_lt(b@.skip(i as int), a@.skip(i as int)));
                assert(a@[i as int] != b@[i as int]);
            }
            return -1;
        }
        if a[i] > b[i] {
            proof {
                assert(a@.skip(i as int)[0] == a@[i as int]);
                assert(b@.skip(i as int)[0] == b@[i as int]);
                assert(bytes_lt(b@.skip(i as int), a@.skip(i as int)));
                assert(!bytes_lt(a@.skip(i as int), b@.skip(i as int)));
                assert(a@[i as int] != b@[i as int]);
            }
            return 1;
        }
        proof {
            assert(a@.subrange(0, i + 1) =~= b@.subrange(0, i + 1));
        }
        i = i + 1;
    }
    proof {
        lemma_bytes_lt_skip(a@, b@, min as int);
        lemma_bytes_lt_skip(b@, a@, min as int);
    }
    if alen < blen {
        proof {
            assert(a@.skip(min as int).len() == 0 && b@.skip(min as int).len() > 0);
        }
        -1
    } else if alen > blen {
        proof {
            assert(b@.skip(min as int).len() == 0 && a@.skip(min as int).len() > 0);
        }
        1
    } else {
        proof {
            assert(a@.subrange(0, min as int) =~= a@);
            assert(b@.subrange(0, min as int) =~= b@);
        }
        0
    }
}

/// Three-way comparison of strings, by their UTF-8 bytes; the result `0`
/// means the strings are equal.
fn str_cmp(a: &str, b: &str) -> (r: i32)
    ensures
        r == -1 || r == 0 || r == 1,
        (r == -1) == str_lt(a@, b@),
        (r == 1) == str_lt(b@, a@),
        (r == 0) == (a@ == b@),
{
    let r = cmp_bytes(a.as_bytes(), b.as_bytes());
    proof {
        if encode_utf8(a@) == encode_utf8(b@) {
            vstd::utf8::encode_utf8_decode_utf8(a@);
            vstd::utf8::encode_utf8_decode_utf8(b@);
        }
    }
    r
}

/// An ordered map from text keys to values: the entries, sorted strictly
/// by key, each key at most once.
#[derive(Debug)]
pub struct Dict {
    entries: Vec<(String, Value)>,
}

/// The entry sequence of a dictionary: key characters and value model,
/// in storage order.
pub open spec fn dict_entries(e: Seq<(String, Value)>) -> Seq<(Seq<char>, ValModel)> {
    Seq::new(e.len(), |i: int| (e[i].0@, e[i].1@))
}

/// Well-formed entries are strictly increasing by key.
pub open spec fn dict_sorted(s: Seq<(Seq<char>, ValModel)>) -> bool {
    forall|i: int, j: int| 0 <= i < j < s.len() ==> str_lt(#[trigger] s[i].0, #[trigger] s[j].0)
}

/// Inserting into sorted entries: before the first larger key; an equal key
/// has its value replaced in place.
pub open spec fn spec_dict_insert(
    s: Seq<(Seq<char>, ValModel)>,
    k: Seq<char>,
    v: ValModel,
) -> Seq<(Seq<char>, ValModel)>
    decreases s.len(),
{
    if s.len() == 0 {
        seq![(k, v)]
    } else if str_lt(k, s[0].0) {
        seq![(k, v)] + s
    } else if k == s[0].0 {
        seq![(k, v)] + s.drop_first()
    } else {
        seq![s[0]] + spec_dict_insert(s.drop_first(), k, v)
    }
}

/// Looking a key up in the entries: the first value stored under it.
pub open spec fn spec_dict_get(s: Seq<(Seq<char>, ValModel)>, k: Seq<char>) -> Option<ValModel>
    decreases s.len(),
{
    if s.len() == 0 {
        None
    } else if s[0].0 == k {
        Some(s[0].1)
    } else {
        spec_dict_get(s.drop_first(), k)
    }
}

impl View for Dict {
    type V = Seq<(Seq<char>, ValModel)>;

    closed spec fn view(&self) -> Seq<(Seq<char>, ValModel)> {
        dict_entries(self.entries@)
    }
}

impl DeepView for Dict {
    type V = Seq<(Seq<char>, ValModel)>;

    closed spec fn deep_view(&self) -> Seq<(Seq<char>, ValModel)> {
        dict_entries(self.entries@)
    }
}

impl Dict {
    /// The entries are strictly increasing by key.
    pub open spec fn wf(&self) -> bool {
        dict_sorted(self@)
    }

    /// The deep view of a dictionary is its view: the entry sequence.
    pub proof fn lemma_views(&self)
        ensures
            self.deep_view() == self@,
    {
    }

    /// Creates an empty dictionary.
    pub fn new() -> (r: Dict)
        ensures
            r@ == Seq::<(Seq<char>, ValModel)>::empty(),
            r.wf(),
    {
        let r = Dict { entries: Vec::new() };
        proof {
            assert(r@ =~= Seq::<(Seq<char>, ValModel)>::empty());
        }
        r
    }

    /// The number of entries.
    pub fn len(&self) -> (r: usize)
        ensures
            r == self@.len(),
    {
        self.entries.len()
    }

    /// The entries themselves, sorted by key.
    pub fn entries(&self) -> (r: &Vec<(String, Value)>)
        ensures
            dict_entries(r@) == self@,
    {
        &self.entries
    }

    /// Inserts a key-value pair, keeping the entries sorted; an existing
    /// key has its value replaced.
    pub fn insert(&mut self, key: String, value: Value)
        requires
            old(self).wf(),
        ensures
            final(self).wf(),
            final(self)@ == spec_dict_insert(old(self)@, key@, value@),
    {
        let ghost s0 = self@;
        let mut i: usize = 0;
        #[verifier::loop_isolation(true)]
        while i < self.entries.len()
            invariant_except_break
                i <= self@.len(),
                forall|j: int| 0 <= j < i ==> str_lt(#[trigger] self@[j].0, key@),
            ensures
                old(self) == self,
                i <= self@.len(),
                forall|j: int| 0 <= j < i ==> str_lt(#[trigger] self@[j].0, key@),
                i < self@.len() ==> !str_lt(self@[i as int].0, key@),
            decreases self@.len() - i,
        {
            let c = str_cmp(self.entries[i].0.as_str(), key.as_str());
            if c != -1 {
                break;
            }
            i = i + 1;
        }
        if i < self.entries.len() {
            let c = str_cmp(self.entries[i].0.as_str(), key.as_str());
            if c == 0 {
                self.entries[i] = (key, value);
                proof {
                    lemma_dict_insert_at(s0, key@, value@, i as int);
                    assert(final(self)@ =~= s0.subrange(0, i as int) + seq![(key@, value@)]
                        + s0.subrange(i + 1, s0.len() as int));
                    lemma_dict_insert_sorted(s0, key@, value@);
                }
                return ;
            }
        }
        proof {
            if i < self@.len() {
                assert(!str_lt(self@[i as int].0, key@) && self@[i as int].0 != key@);
            }
        }
        self.entries.insert(i, (key, value));
        proof {
            lemma_dict_insert_at(s0, key@, value@, i as int);
            assert(final(self)@ =~= s0.subrange(0, i as int) + seq![(key@, value@)] + s0.subrange(
                i as int,
                s0.len() as int,
            ));
            lemma_dict_insert_sorted(s0, key@, value@);
        }
    }

    /// The value stored under a key, if any.
    pub fn get(&self, key: &str) -> (r: Option<&Value>)
        ensures
            match r {
                Some(v) => spec_dict_get(self@, key@) == Some(v@),
                None => spec_dict_get(self@, key@) is None,
            },
    {
        let mut i: usize = 0;
        proof {
            assert(self@.skip(0) =~= self@);
        }
        #[verifier::loop_isolation(true)]
        while i < self.entries.len()
            invariant_except_break
                i <= self@.len(),
                spec_dict_get(self@, key@) == spec_dict_get(self@.skip(i as int), key@),
            ensures
                i <= self@.len(),
                spec_dict_get(self@, key@) == spec_dict_get(self@.skip(i as int), key@),
                i < self@.len() ==> self@[i as int].0 == key@,
            decreases self@.len() - i,
        {
            let c = str_cmp(self.entries[i].0.as_str(), key);
            if c == 0 {
                break;
            }
            proof {
                let tail = self@.skip(i as int);
                assert(tail[0] == self@[i as int]);
                assert(tail.drop_first() =~= self@.skip(i + 1));
            }
            i = i + 1;
        }
        if i < self.entries.len() {
            proof {
                let tail = self@.skip(i as int);
                assert(tail[0] == self@[i as int]);
            }
            Some(&self.entries[i].1)
        } else {
            proof {
                assert(self@.skip(i as int).len() == 0);
            }
            None
        }
    }
}

/// Where the scan stopped is where the spec insertion lands.
proof fn lemma_dict_insert_at(s: Seq<(Seq<char>, ValModel)>, k: Seq<char>, v: ValModel, i: int)
    requires
        dict_sorted(s),
        0 <= i <= s.len(),
        forall|j: int| 0 <= j < i ==> str_lt(#[trigger] s[j].0, k),
        i < s.len() ==> !str_lt(s[i].0, k),
    ensures
        i < s.len() && s[i].0 == k ==> spec_dict_insert(s, k, v) =~= s.subrange(0, i) + seq![
            (k, v),
        ] + s.subrange(i + 1, s.len() as int),
        !(i < s.len() && s[i].0 == k) ==> spec_dict_insert(s, k, v) =~= s.subrange(0, i) + seq![
            (k, v),
        ] + s.subrange(i, s.len() as int),
    decreases i,
{
    if i == 0 {
        if s.len() == 0 {
            assert(spec_dict_insert(s, k, v) =~= s.subrange(0, 0) + seq![(k, v)] + s.subrange(
                0,
                s.len() as int,
            ));
        } else if s[0].0 == k {
            assert(spec_dict_insert(s, k, v) =~= s.subrange(0, 0) + seq![(k, v)] + s.subrange(
                1,
                s.len() as int,
            ));
        } else {
            assert(bytes_lt(encode_utf8(k), encode_utf8(s[0].0))) by {
                if !bytes_lt(encode_utf8(k), encode_utf8(s[0].0)) {
                    lemma_bytes_lt_total(encode_utf8(k), encode_utf8(s[0].0));
                    vstd::utf8::encode_utf8_decode_utf8(k);
                    vstd::utf8::encode_utf8_decode_utf8(s[0].0);
                }
            }
            assert(spec_dict_insert(s, k, v) =~= s.subrange(0, 0) + seq![(k, v)] + s.subrange(
                0,
                s.len() as int,
            ));
        }
    } else {
        let tail = s.drop_first();
        assert(forall|j: int| 0 <= j < i - 1 ==> str_lt(#[trigger] tail[j].0, k));
        lemma_dict_insert_at(tail, k, v, i - 1);
        assert(!str_lt(k, s[0].0)) by {
            lemma_bytes_lt_asym(encode_utf8(s[0].0), encode_utf8(k));
        }
        assert(s[0].0 != k) by {
            lemma_bytes_lt_irrefl(encode_utf8(k));
        }
        assert(tail.subrange(0, i - 1) =~= s.subrange(1, i));
        if i < s.len() && s[i].0 == k {
            assert(tail[i - 1].0 == k);
            assert(spec_dict_insert(s, k, v) == seq![s[0]] + spec_dict_insert(tail, k, v));
            assert(tail.subrange(i, tail.len() as int) =~= s.subrange(i + 1, s.len() as int));
            assert(spec_dict_insert(s, k, v) =~= s.subrange(0, i) + seq![(k, v)] + s.subrange(
                i + 1,
                s.len() as int,
            ));
        } else {
            assert(spec_dict_insert(s, k, v) == seq![s[0]] + spec_dict_insert(tail, k, v));
            assert(tail.subrange(i - 1, tail.len() as int) =~= s.subrange(i, s.len() as int));
            assert(spec_dict_insert(s, k, v) =~= s.subrange(0, i) + seq![(k, v)] + s.subrange(
                i,
                s.len() as int,
            ));
        }
    }
}

/// Insertion keeps the entries strictly sorted.
proof fn lemma_dict_insert_sorted(s: Seq<(Seq<char>, ValModel)>, k: Seq<char>, v: ValModel)
    requires
        dict_sorted(s),
    ensures
        dict_sorted(spec_dict_insert(s, k, v)),
    decreases s.len(),
{
    let r = spec_dict_insert(s, k, v);
    if s.len() == 0 {
    } else if str_lt(k, s[0].0) {
        assert forall|i: int, j: int| 0 <= i < j < r.len() implies str_lt(
            #[trigger] r[i].0,
            #[trigger] r[j].0,
        ) by {
            if i == 0 {
                if j > 1 {
                    lemma_bytes_lt_trans(
                        encode_utf8(k),
                        encode_utf8(s[0].0),
                        encode_utf8(s[j - 1].0),
                    );
                }
            }
        }
    } else if k == s[0].0 {
        assert forall|i: int, j: int| 0 <= i < j < r.len() implies str_lt(
            #[trigger] r[i].0,
            #[trigger] r[j].0,
        ) by {
            assert(r[i] == (if i == 0 {
                (k, v)
            } else {
                s[i]
            }));
        }
    } else {
        let tail = s.drop_first();
        lemma_dict_insert_sorted(tail, k, v);
        let rt = spec_dict_insert(tail, k, v);
        assert(bytes_lt(encode_utf8(s[0].0), encode_utf8(k))) by {
            if !bytes_lt(encode_utf8(s[0].0), encode_utf8(k)) {
                lemma_bytes_lt_total(encode_utf8(s[0].0), encode_utf8(k));
                vstd::utf8::encode_utf8_decode_utf8(s[0].0);
                vstd::utf8::encode_utf8_decode_utf8(k);
            }
        }
        assert forall|i: int, j: int| 0 <= i < j < r.len() implies str_lt(
            #[trigger] r[i].0,
            #[trigger] r[j].0,
        ) by {
            if i == 0 {
                // every key of the inserted tail is either `k` or a tail key,
                // both above `s[0].0`
                lemma_dict_insert_member(tail, k, v, j - 1);
                if rt[j - 1].0 == k {
                } else {
                    let jj = choose|jj: int|
                        0 <= jj < tail.len() && rt[j - 1] == #[trigger] tail[jj];
                    assert(str_lt(s[0].0, tail[jj].0));
                }
            } else {
                assert(r[i] == rt[i - 1] && r[j] == rt[j - 1]);
            }
        }
    }
}

/// Every entry of an insertion result is the inserted pair or one of the
/// original entries.
proof fn lemma_dict_insert_member(s: Seq<(Seq<char>, ValModel)>, k: Seq<char>, v: ValModel, i: int)
    requires
        0 <= i < spec_dict_insert(s, k, v).len(),
    ensures
        spec_dict_insert(s, k, v)[i] == (k, v) || exists|j: int|
            0 <= j < s.len() && spec_dict_insert(s, k, v)[i] == #[trigger] s[j],
    decreases s.len(),
{
    let r = spec_dict_insert(s, k, v);
    if s.len() == 0 {
    } else if str_lt(k, s[0].0) {
        if i > 0 {
            assert(r[i] == s[i - 1]);
        }
    } else if k == s[0].0 {
        if i > 0 {
            assert(r[i] == s[i]);
        }
    } else {
        if i == 0 {
            assert(r[0] == s[0]);
        } else {
            lemma_dict_insert_member(s.drop_first(), k, v, i - 1);
            let tail = s.drop_first();
            let rt = spec_dict_insert(tail, k, v);
            assert(r[i] == rt[i - 1]);
            if rt[i - 1] == (k, v) {
            } else {
                let j = choose|j: int| 0 <= j < tail.len() && rt[i - 1] == #[trigger] tail[j];
                assert(r[i] == s[j + 1]);
            }
        }
    }
}

impl From<Dict> for Value {
    /// A map value holding the dictionary's entries in their sorted order.
    fn from(d: Dict) -> (r: Value)
        ensures
            r@ == ValModel::Pairs(
                Seq::new(d@.len(), |i: int| (ValModel::Text(TextModel::Chars(d@[i].0)), d@[i].1)),
            ),
    {
        let entries = d.entries;
        let mut pairs: Vec<(Value, Value)> = Vec::new();
        let mut i: usize = 0;
        while i < entries.len()
            invariant
                i <= entries.len(),
                pairs@.len() == i as int,
                forall|j: int|
                    0 <= j < i ==> (#[trigger] pairs@[j]).0@ == ValModel::Text(
                        TextModel::Chars(entries@[j].0@),
                    ) && pairs@[j].1@ == entries@[j].1@,
            decreases entries.len() - i,
        {
            let pair = &entries[i];
            let key = Value::String(Utf8String::from(pair.0.clone()));
            pairs.push((key, pair.1.clone()));
            i = i + 1;
        }
        proof {
            Value::lemma_view_map(pairs);
            assert(pairs_view(pairs@) =~= Seq::new(
                dict_entries(entries@).len(),
                |i: int|
                    (
                        ValModel::Text(TextModel::Chars(dict_entries(entries@)[i].0)),
                        dict_entries(entries@)[i].1,
                    ),
            ));
        }
        Value::Mapping(pairs)
    }
}

impl vstd::std_specs::convert::FromSpecImpl<Dict> for Value {
    open spec fn obeys_from_spec() -> bool {
        false
    }

    open spec fn from_spec(v: Dict) -> Value {
        arbitrary()
    }
}

/// Folding a pair sequence into sorted entries, left to right: a later
/// duplicate key replaces the earlier value. Absent when a key is not valid
/// UTF-8 text.
pub open spec fn dict_from_pairs(
    acc: Seq<(Seq<char>, ValModel)>,
    ps: Seq<(ValModel, ValModel)>,
    i: int,
) -> Option<Seq<(Seq<char>, ValModel)>>
    decreases ps.len() - i,
{
    if i < 0 || i >= ps.len() {
        Some(acc)
    } else {
        match ps[i].0 {
            ValModel::Text(TextModel::Chars(k)) => dict_from_pairs(
                spec_dict_insert(acc, k, ps[i].1),
                ps,
                i + 1,
            ),
            _ => None,
        }
    }
}

impl FromValue for Dict {
    /// A map value whose keys are all valid UTF-8 text, folded into sorted
    /// entries in pair order; a later duplicate key wins.
    open spec fn from_value_model(m: ValModel) -> Option<Seq<(Seq<char>, ValModel)>> {
        match m {
            ValModel::Pairs(ps) => dict_from_pairs(Seq::empty(), ps, 0),
            _ => None,
        }
    }

    fn from_value(arg: &Value) -> (r: Option<Dict>) {
        let pairs = match arg.as_map() {
            Some(m) => m,
            None => {
                return None;
            },
        };
        let ghost ps = arg@->Pairs_0;
        let mut d = Dict::new();
        let mut i: usize = 0;
        while i < pairs.len()
            invariant
                i <= pairs.len(),
                ps.len() == pairs.len(),
                forall|j: int|
                    0 <= j < ps.len() ==> #[trigger] ps[j] == (pairs@[j].0@, pairs@[j].1@),
                d.wf(),
                dict_from_pairs(Seq::empty(), ps, 0) == dict_from_pairs(d@, ps, i as int),
            decreases pairs.len() - i,
        {
            let pair = &pairs[i];
            let key = match pair.0.as_str() {
                Some(k) => k,
                None => {
                    return None;
                },
            };
            d.insert(key.to_owned(), pair.1.clone());
            i = i + 1;
        }
        Some(d)
    }
}

} // verus!
