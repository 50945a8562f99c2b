//! The UI form description builder: a body, optional default values, and
//! a list of actions, collected field by field and convertible into the
//! 2-element value `["form", {fields}]` that the host serializes.
use vstd::prelude::*;
use vstd::string::StrSliceExecFns;
use vstd::utf8::{encode_scalar, encode_utf8};

use crate::value::{lemma_encode_utf8_concat, lemma_encode_utf8_push, pairs_view, push_char_utf8, seq_view, string_from_utf8, TextModel, Utf8String, ValModel, Value};

verus! {

/// One action a form offers: its action identifier, its caption, and
/// whether it skips validation.
#[derive(Clone, Debug)]
pub struct FormAction {
    pub action: String,
    pub caption: String,
    pub no_validate: bool,
}

/// The mathematical content of a form action.
pub struct ActionModel {
    pub action: Seq<char>,
    pub caption: Seq<char>,
    pub no_validate: bool,
}

/// A form description under construction.
#[derive(Debug)]
pub struct Form {
    body: Option<String>,
    defaults: Option<String>,
    actions: Vec<FormAction>,
}

/// The mathematical content of a form.
pub struct FormModel {
    pub body: Option<Seq<char>>,
    pub defaults: Option<Seq<char>>,
    pub actions: Seq<ActionModel>,
}

impl View for Form {
    type V = FormModel;

    closed spec fn view(&self) -> FormModel {
        FormModel {
            body: match self.body {
                Some(b) => Some(b@),
                None => None,
            },
            defaults: match self.defaults {
                Some(d) => Some(d@),
                None => None,
            },
            actions: Seq::new(
                self.actions@.len(),
                |i: int|
                    ActionModel {
                        action: self.actions@[i].action@,
                        caption: self.actions@[i].caption@,
                        no_validate: self.actions@[i].no_validate,
                    },
            ),
        }
    }
}

/// The characters of a text with every newline replaced by the two
/// characters backslash and `n`.
pub open spec fn escape_newlines(cs: Seq<char>) -> Seq<char>
    decreases cs.len(),
{
    if cs.len() == 0 {
        Seq::empty()
    } else {
        (if cs[0] == '\n' {
            seq!['\\', 'n']
        } else {
            seq![cs[0]]
        }) + escape_newlines(cs.drop_first())
    }
}

/// The read-only text node document wrapping a text: the body a `rho`
/// call stores.
pub open spec fn rho_wrapped(rho: Seq<char>) -> Seq<char> {
    "{ \"type\": \"roTextNode\", \"text\": \""@ + escape_newlines(rho) + "\" }"@
}

/// Builds the string wrapping a text in the read-only text node document,
/// newlines escaped.
fn build_rho(rho: &str) -> (r: String)
    ensures
        r@ == rho_wrapped(rho@),
{
    let prefix = "{ \"type\": \"roTextNode\", \"text\": \"";
    let suffix = "\" }";
    let mut out: Vec<u8> = prefix.as_bytes_vec();
    let ghost mut acc = prefix@;
    let n = rho.unicode_len();
    let mut i: usize = 0;
    while i < n
        invariant
            i <= n,
            n == rho@.len(),
            acc =~= prefix@ + escape_newlines(rho@.take(i as int)),
            out@ == encode_utf8(acc),
        decreases n - i,
    {
        let c = rho.get_char(i);
        proof {
            lemma_escape_newlines_push(rho@.take(i as int), c);
            assert(rho@.take(i + 1) =~= rho@.take(i as int).push(c));
        }
        if c == '\n' {
            proof {
                lemma_encode_utf8_push(acc, '\\');
                lemma_encode_utf8_push(acc.push('\\'), 'n');
                vstd::utf8::char_is_scalar('\\');
                vstd::utf8::char_is_scalar('n');
            }
            out.push(0x5C);
            out.push(0x6E);
            proof {
                assert('\\' as u32 == 92 && 'n' as u32 == 110);
                assert(92u32 & 0x7F == 92 && 110u32 & 0x7F == 110) by (bit_vector);
                assert(encode_scalar('\\' as u32) =~= seq![0x5Cu8]);
                assert(encode_scalar('n' as u32) =~= seq![0x6Eu8]);
                acc = acc.push('\\').push('n');
                assert(out@ =~= encode_utf8(acc));
                assert(acc =~= prefix@ + escape_newlines(rho@.take(i + 1)));
            }
        } else {
            proof {
                lemma_encode_utf8_push(acc, c);
            }
            push_char_utf8(&mut out, c);
            proof {
                acc = acc.push(c);
                assert(acc =~= prefix@ + escape_newlines(rho@.take(i + 1)));
            }
        }
        i = i + 1;
    }
    proof {
        assert(rho@.take(n as int) =~= rho@);
    }
    let mut tail = suffix.as_bytes_vec();
    out.append(&mut tail);
    proof {
        lemma_encode_utf8_concat(acc, suffix@);
        acc = acc + suffix@;
        assert(out@ =~= encode_utf8(acc));
        vstd::utf8::encode_utf8_valid_utf8(acc);
    }
    match string_from_utf8(out) {
        Some(s) => {
            proof {
                vstd::utf8::encode_utf8_decode_utf8(s@);
                vstd::utf8::encode_utf8_decode_utf8(acc);
                assert(acc =~= rho_wrapped(rho@));
            }
            s
        },
        None => {
            proof {
                assert(false);
            }
            String::new()
        },
    }
}

/// Escaping one more character appends its escape.
proof fn lemma_escape_newlines_push(cs: Seq<char>, c: char)
    ensures
        escape_newlines(cs.push(c)) == escape_newlines(cs) + (if c == '\n' {
            seq!['\\', 'n']
        } else {
            seq![c]
        }),
    decreases cs.len(),
{
    let tail = if c == '\n' {
        seq!['\\', 'n']
    } else {
        seq![c]
    };
    if cs.len() == 0 {
        reveal_with_fuel(escape_newlines, 3);
        assert(cs.push(c)[0] == c);
        assert(cs.push(c).drop_first() =~= Seq::<char>::empty());
        assert(escape_newlines(cs.push(c)) =~= escape_newlines(cs) + tail);
    } else {
        assert(cs.push(c)[0] == cs[0]);
        assert(cs.push(c).drop_first() =~= cs.drop_first().push(c));
        lemma_escape_newlines_push(cs.drop_first(), c);
        assert(escape_newlines(cs.push(c)) =~= escape_newlines(cs) + tail);
    }
}

impl Form {
    /// Creates an empty form.
    pub fn new() -> (r: Form)
        ensures
            r@.body is None,
            r@.defaults is None,
            r@.actions == Seq::<ActionModel>::empty(),
    {
        let r = Form { body: None, defaults: None, actions: Vec::new() };
        proof {
            assert(r@.actions =~= Seq::<ActionModel>::empty());
        }
        r
    }

    /// Creates a form with the given body.
    pub fn with_body(body: &str) -> (r: Form)
        ensures
            r@.body == Some(body@),
            r@.defaults is None,
            r@.actions == Seq::<ActionModel>::empty(),
    {
        let mut form = Form::new();
        form.body(body);
        form
    }

    /// Creates a form whose body is the given text wrapped in a read-only
    /// text node.
    pub fn with_rho(rho: &str) -> (r: Form)
        ensures
            r@.body == Some(rho_wrapped(rho@)),
            r@.defaults is None,
            r@.actions == Seq::<ActionModel>::empty(),
    {
        let mut form = Form::new();
        form.rho(rho);
        form
    }

    /// Sets the body.
    pub fn body(&mut self, body: &str)
        ensures
            final(self)@.body == Some(body@),
            final(self)@.defaults == old(self)@.defaults,
            final(self)@.actions == old(self)@.actions,
    {
        self.body = Some(body.to_owned());
        proof {
            assert(self@.actions =~= old(self)@.actions);
        }
    }

    /// Sets the body to the given text wrapped in a read-only text node,
    /// newlines escaped.
    pub fn rho(&mut self, rho: &str)
        ensures
            final(self)@.body == Some(rho_wrapped(rho@)),
            final(self)@.defaults == old(self)@.defaults,
            final(self)@.actions == old(self)@.actions,
    {
        self.body = Some(build_rho(rho));
        proof {
            assert(self@.actions =~= old(self)@.actions);
        }
    }

    /// Sets the default values document.
    pub fn defaults(&mut self, defaults: &str)
        ensures
            final(self)@.defaults == Some(defaults@),
            final(self)@.body == old(self)@.body,
            final(self)@.actions == old(self)@.actions,
    {
        self.defaults = Some(defaults.to_owned());
        proof {
            assert(self@.actions =~= old(self)@.actions);
        }
    }

    /// Adds an action with its caption; an action added without
    /// validation carries the no-validate marker.
    pub fn action(&mut self, caption: &str, action: &str, validate: bool)
        ensures
            final(self)@.actions == old(self)@.actions.push(
                ActionModel { action: action@, caption: caption@, no_validate: !validate },
            ),
            final(self)@.body == old(self)@.body,
            final(self)@.defaults == old(self)@.defaults,
    {
        self.actions.push(
            FormAction {
                action: action.to_owned(),
                caption: caption.to_owned(),
                no_validate: !validate,
            },
        );
        proof {
            assert(self@.actions =~= old(self)@.actions.push(
                ActionModel { action: action@, caption: caption@, no_validate: !validate },
            ));
        }
    }
}

/// The map value of one form action.
pub open spec fn action_value(a: ActionModel) -> ValModel {
    ValModel::Pairs(
        seq![
            (
                ValModel::Text(TextModel::Chars("action"@)),
                ValModel::Text(TextModel::Chars(a.action)),
            ),
            (
                ValModel::Text(TextModel::Chars("caption"@)),
                ValModel::Text(TextModel::Chars(a.caption)),
            ),
            (ValModel::Text(TextModel::Chars("noValidate"@)), ValModel::Bool(a.no_validate)),
        ],
    )
}

/// The map of a form's present fields: the body under "form", the
/// defaults under "default_values", the actions under "actions" — each
/// only when present.
pub open spec fn form_fields_value(m: FormModel) -> Seq<(ValModel, ValModel)> {
    (match m.body {
        Some(b) => seq![
            (ValModel::Text(TextModel::Chars("form"@)), ValModel::Text(TextModel::Chars(b))),
        ],
        None => Seq::empty(),
    }) + (match m.defaults {
        Some(d) => seq![
            (
                ValModel::Text(TextModel::Chars("default_values"@)),
                ValModel::Text(TextModel::Chars(d)),
            ),
        ],
        None => Seq::empty(),
    }) + (if m.actions.len() > 0 {
        seq![
            (
                ValModel::Text(TextModel::Chars("actions"@)),
                ValModel::Arr(Seq::new(m.actions.len(), |i: int| action_value(m.actions[i]))),
            ),
        ]
    } else {
        Seq::empty()
    })
}

impl Form {
    /// The form as a value: the 2-element sequence of the tag "form" and
    /// the map of present fields.
    pub fn to_value(&self) -> (r: Value)
        ensures
            r@ == ValModel::Arr(
                seq![
                    ValModel::Text(TextModel::Chars("form"@)),
                    ValModel::Pairs(form_fields_value(self@)),
                ],
            ),
    {
        let mut fields: Vec<(Value, Value)> = Vec::new();
        match &self.body {
            Some(b) => {
                fields.push(
                    (Value::from("form"), Value::String(Utf8String::from(b.clone()))),
                );
            },
            None => {},
        }
        match &self.defaults {
            Some(d) => {
                fields.push(
                    (Value::from("default_values"), Value::String(Utf8String::from(d.clone()))),
                );
            },
            None => {},
        }
        if self.actions.len() > 0 {
            let mut list: Vec<Value> = Vec::new();
            let mut k: usize = 0;
            while k < self.actions.len()
                invariant
                    k <= self.actions@.len(),
                    list@.len() == k as int,
                    forall|j: int|
                        0 <= j < k ==> (#[trigger] list@[j])@ == action_value(self@.actions[j]),
                decreases self.actions@.len() - k,
            {
                let a = &self.actions[k];
                let mut pairs: Vec<(Value, Value)> = Vec::new();
                pairs.push(
                    (Value::from("action"), Value::String(Utf8String::from(a.action.clone()))),
                );
                pairs.push(
                    (Value::from("caption"), Value::String(Utf8String::from(a.caption.clone()))),
                );
                pairs.push((Value::from("noValidate"), Value::Boolean(a.no_validate)));
                proof {
                    Value::lemma_view_map(pairs);
                    assert(pairs_view(pairs@) =~= action_value(self@.actions[k as int])->Pairs_0);
                }
                list.push(Value::Mapping(pairs));
                k = k + 1;
            }
            proof {
                Value::lemma_view_arr(list);
                assert(seq_view(list@) =~= Seq::new(
                    self@.actions.len(),
                    |i: int| action_value(self@.actions[i]),
                ));
            }
            fields.push((Value::from("actions"), Value::Array(list)));
        }
        proof {
            Value::lemma_view_map(fields);
            assert(pairs_view(fields@) =~= form_fields_value(self@));
        }
        let mut outer: Vec<Value> = Vec::new();
        outer.push(Value::from("form"));
        outer.push(Value::Mapping(fields));
        proof {
            Value::lemma_view_arr(outer);
            assert(seq_view(outer@) =~= seq![
                ValModel::Text(TextModel::Chars("form"@)),
                ValModel::Pairs(form_fields_value(self@)),
            ]);
        }
        Value::Array(outer)
    }
}

} // verus!
