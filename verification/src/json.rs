//! The JSON text of values and shared items.
use vstd::prelude::*;
use vstd::string::StringExecFns;

use crate::dup::{view_opt, views};
use crate::model::{
    Ciphertext, CiphertextView, Float, SharedItem, SharedItemView, Value, ValueType, ValueView,
};
use crate::outside::{canonical_float, float_text, json_literal, json_string};
use crate::text::{dec, decimal, same, signed_dec, signed_decimal};

verus! {

impl Float {
    /// Reads a number: any JSON number whose value is finite.
    pub fn parse(text: &str) -> (r: Option<Float>)
        ensures
            view_opt(r) == float_text(text@),
    {
        match canonical_float(text) {
            Some(s) => Some(Float { text: s }),
            None => None,
        }
    }
}

/// The JSON strings of `s`, with commas between them.
pub open spec fn literals(s: Seq<Seq<char>>) -> Seq<char>
    decreases s.len(),
{
    if s.len() == 0 {
        Seq::empty()
    } else if s.len() == 1 {
        json_literal(s[0])
    } else {
        literals(s.drop_last()) + ","@ + json_literal(s.last())
    }
}

/// The JSON text of a ciphertext.
pub open spec fn ciphertext_text(c: CiphertextView) -> Seq<char> {
    "{\"enc\":"@ + json_literal(c.enc) + ",\"v\":"@ + dec(c.v as nat) + ",\"dek_v\":"@ + dec(
        c.dek_v as nat,
    ) + ",\"nonce\":"@ + json_literal(c.nonce) + ",\"ct\":"@ + json_literal(c.ct) + ",\"edek\":"@
        + json_literal(c.edek) + ",\"edek_nonce\":"@ + json_literal(c.edek_nonce) + "}"@
}

pub open spec fn bool_text(b: bool) -> Seq<char> {
    if b {
        "true"@
    } else {
        "false"@
    }
}

/// The JSON text of a value: its type and, under the name that goes with the type, what it holds.
pub open spec fn value_text(v: ValueView) -> Seq<char> {
    match v {
        ValueView::String(s) => "{\"type\":\"string\",\"str_value\":"@ + json_literal(s) + "}"@,
        ValueView::Int(i) => "{\"type\":\"int\",\"int_value\":"@ + signed_dec(i as int) + "}"@,
        ValueView::Float(t) => "{\"type\":\"float\",\"float_value\":"@ + t + "}"@,
        ValueView::Bool(b) => "{\"type\":\"bool\",\"bool_value\":"@ + bool_text(b) + "}"@,
        ValueView::Json(s) => "{\"type\":\"json\",\"json_value\":"@ + json_literal(s) + "}"@,
        ValueView::Array(a) => "{\"type\":\"array\",\"list_value\":["@ + literals(a) + "]}"@,
        ValueView::Secret(c) => "{\"type\":\"secret\",\"ciphertext\":"@ + ciphertext_text(c) + "}"@,
    }
}

/// The word for a value type.
pub open spec fn type_word(ty: ValueType) -> Seq<char> {
    match ty {
        ValueType::String => "string"@,
        ValueType::Int => "int"@,
        ValueType::Float => "float"@,
        ValueType::Bool => "bool"@,
        ValueType::Json => "json"@,
        ValueType::Array => "array"@,
        ValueType::Secret => "secret"@,
    }
}

impl ValueType {
    /// The word for the type.
    pub fn word(self) -> (r: &'static str)
        ensures
            r@ == type_word(self),
    {
        match self {
            ValueType::String => "string",
            ValueType::Int => "int",
            ValueType::Float => "float",
            ValueType::Bool => "bool",
            ValueType::Json => "json",
            ValueType::Array => "array",
            ValueType::Secret => "secret",
        }
    }
}

/// The JSON text of a shared item.
pub open spec fn shared_text(item: SharedItemView) -> Seq<char> {
    let body = "{\"group\":"@ + json_literal(item.group) + ",\"key\":"@ + json_literal(item.key)
        + ",\"ty\":\""@ + type_word(item.ty) + "\",\"secret\":"@ + bool_text(item.secret)
        + ",\"required\":"@ + bool_text(item.required) + ",\"value\":"@ + value_text(item.value)
        + ",\"version\":"@ + dec(item.version as nat);
    match item.description {
        Some(d) => body + ",\"description\":"@ + json_literal(d) + "}"@,
        None => body + "}"@,
    }
}

pub(crate) fn bool_word(b: bool) -> (r: &'static str)
    ensures
        r@ == bool_text(b),
{
    if b {
        "true"
    } else {
        "false"
    }
}

fn ciphertext_json(c: &Ciphertext) -> (r: String)
    ensures
        r@ == ciphertext_text(c@),
{
    let mut s: String = "{\"enc\":".to_owned();
    s.append(json_string(c.enc.as_str()).as_str());
    s.append(",\"v\":");
    s.append(decimal(c.v as u64).as_str());
    s.append(",\"dek_v\":");
    s.append(decimal(c.dek_v).as_str());
    s.append(",\"nonce\":");
    s.append(json_string(c.nonce.as_str()).as_str());
    s.append(",\"ct\":");
    s.append(json_string(c.ct.as_str()).as_str());
    s.append(",\"edek\":");
    s.append(json_string(c.edek.as_str()).as_str());
    s.append(",\"edek_nonce\":");
    s.append(json_string(c.edek_nonce.as_str()).as_str());
    s.append("}");
    s
}

pub(crate) fn list_json(elements: &Vec<String>) -> (r: String)
    ensures
        r@ == literals(views(elements@)),
{
    let ghost all = views(elements@);
    let mut s: String = String::new();
    let mut i: usize = 0;
    assert(all.take(0) =~= Seq::empty());
    while i < elements.len()
        invariant
            i <= elements@.len(),
            all == views(elements@),
            s@ == literals(all.take(i as int)),
        decreases elements@.len() - i,
    {
        assert(all.take(i + 1).drop_last() =~= all.take(i as int));
        assert(all.take(i + 1).last() == elements@[i as int]@);
        let lit: String = json_string(elements[i].as_str());
        if i > 0 {
            s.append(",");
        } else {
            assert(all.take(1)[0] == elements@[0]@);
            assert(s@ + json_literal(elements@[0]@) =~= json_literal(elements@[0]@));
        }
        s.append(lit.as_str());
        i = i + 1;
    }
    assert(all.take(i as int) =~= all);
    s
}

pub(crate) fn framed(head: &str, body: &str, tail: &str) -> (r: String)
    ensures
        r@ == head@ + body@ + tail@,
{
    let mut s: String = head.to_owned();
    s.append(body);
    s.append(tail);
    s
}

/// Writes a value as JSON.
pub fn value_json(v: &Value) -> (r: String)
    ensures
        r@ == value_text(v@),
{
    match v {
        Value::String(s) => framed(
            "{\"type\":\"string\",\"str_value\":",
            json_string(s.as_str()).as_str(),
            "}",
        ),
        Value::Int(i) => framed(
            "{\"type\":\"int\",\"int_value\":",
            signed_decimal(*i).as_str(),
            "}",
        ),
        Value::Float(f) => framed("{\"type\":\"float\",\"float_value\":", f.text.as_str(), "}"),
        Value::Bool(b) => framed("{\"type\":\"bool\",\"bool_value\":", bool_word(*b), "}"),
        Value::Json(s) => framed(
            "{\"type\":\"json\",\"json_value\":",
            json_string(s.as_str()).as_str(),
            "}",
        ),
        Value::Array(a) => framed(
            "{\"type\":\"array\",\"list_value\":[",
            list_json(a).as_str(),
            "]}",
        ),
        Value::Secret(c) => framed(
            "{\"type\":\"secret\",\"ciphertext\":",
            ciphertext_json(c).as_str(),
            "}",
        ),
    }
}

/// Writes a shared item as JSON.
pub fn shared_json(item: &SharedItem) -> (r: String)
    ensures
        r@ == shared_text(item@),
{
    let mut s: String = "{\"group\":".to_owned();
    s.append(json_string(item.group.as_str()).as_str());
    s.append(",\"key\":");
    s.append(json_string(item.key.as_str()).as_str());
    s.append(",\"ty\":\"");
    s.append(item.ty.word());
    s.append("\",\"secret\":");
    s.append(bool_word(item.secret));
    s.append(",\"required\":");
    s.append(bool_word(item.required));
    s.append(",\"value\":");
    s.append(value_json(&item.value).as_str());
    s.append(",\"version\":");
    s.append(decimal(item.version).as_str());
    match &item.description {
        Some(d) => {
            s.append(",\"description\":");
            s.append(json_string(d.as_str()).as_str());
        },
        None => {},
    }
    s.append("}");
    s
}

/// The members of the JSON object of a value, as far as they are there and of their type.
#[derive(Debug)]
pub struct ValueMembers {
    pub ty: Option<String>,
    pub str_value: Option<String>,
    pub int_value: Option<i64>,
    /// The text of a number.
    pub float_value: Option<Float>,
    pub bool_value: Option<bool>,
    pub json_value: Option<String>,
    /// The elements that are strings.
    pub list_value: Option<Vec<String>>,
    pub ciphertext: Option<Ciphertext>,
}

pub open spec fn text_or_empty(o: Option<String>) -> Seq<char> {
    match o {
        Some(s) => s@,
        None => Seq::empty(),
    }
}

/// The value that the members of a JSON object stand for. A member that is missing or of another type
/// counts as the empty or zero value; only a type, and for a secret its ciphertext, has to be there.
pub open spec fn value_of_members(m: ValueMembers) -> Option<ValueView> {
    match m.ty {
        None => None,
        Some(ty) => if ty@ == "string"@ {
            Some(ValueView::String(text_or_empty(m.str_value)))
        } else if ty@ == "int"@ {
            Some(ValueView::Int(if m.int_value is Some { m.int_value->0 } else { 0 }))
        } else if ty@ == "float"@ {
            Some(ValueView::Float(if m.float_value is Some { m.float_value->0@ } else { "0.0"@ }))
        } else if ty@ == "bool"@ {
            Some(ValueView::Bool(if m.bool_value is Some { m.bool_value->0 } else { false }))
        } else if ty@ == "json"@ {
            Some(ValueView::Json(text_or_empty(m.json_value)))
        } else if ty@ == "array"@ {
            Some(
                ValueView::Array(
                    if m.list_value is Some {
                        views(m.list_value->0@)
                    } else {
                        Seq::empty()
                    },
                ),
            )
        } else if ty@ == "secret"@ {
            match m.ciphertext {
                Some(c) => Some(ValueView::Secret(c@)),
                None => None,
            }
        } else {
            None
        },
    }
}

/// Makes a value of the members of its JSON object.
pub fn value_from_members(m: ValueMembers) -> (r: Option<Value>)
    ensures
        view_opt(r) == value_of_members(m),
{
    let ty: String = match m.ty {
        Some(t) => t,
        None => {
            return None;
        },
    };
    proof {
        reveal_strlit("string");
        reveal_strlit("int");
        reveal_strlit("float");
        reveal_strlit("bool");
        reveal_strlit("json");
        reveal_strlit("array");
        reveal_strlit("secret");
    }
    let t: &str = ty.as_str();
    if same(t, "string") {
        Some(Value::String(match m.str_value { Some(s) => s, None => String::new() }))
    } else if same(t, "int") {
        Some(Value::Int(match m.int_value { Some(i) => i, None => 0 }))
    } else if same(t, "float") {
        Some(
            Value::Float(
                match m.float_value {
                    Some(f) => f,
                    None => Float { text: "0.0".to_owned() },
                },
            ),
        )
    } else if same(t, "bool") {
        Some(Value::Bool(match m.bool_value { Some(b) => b, None => false }))
    } else if same(t, "json") {
        Some(Value::Json(match m.json_value { Some(s) => s, None => String::new() }))
    } else if same(t, "array") {
        let elements: Vec<String> = match m.list_value {
            Some(a) => a,
            None => {
                let e: Vec<String> = Vec::new();
                assert(views(e@) =~= Seq::empty());
                e
            },
        };
        Some(Value::Array(elements))
    } else if same(t, "secret") {
        match m.ciphertext {
            Some(c) => Some(Value::Secret(c)),
            None => None,
        }
    } else {
        None
    }
}

/// The members are those that [`value_json`] writes for the value: the word for its type and, under the
/// name that goes with the type, what it holds.
pub open spec fn are_members_of(m: ValueMembers, v: ValueView) -> bool {
    match v {
        ValueView::String(s) => names_type(m, ValueType::String) && (m.str_value matches Some(x) && x@
            == s),
        ValueView::Int(i) => names_type(m, ValueType::Int) && m.int_value == Some(i),
        ValueView::Float(t) => names_type(m, ValueType::Float) && (m.float_value matches Some(x) && x@
            == t),
        ValueView::Bool(b) => names_type(m, ValueType::Bool) && m.bool_value == Some(b),
        ValueView::Json(s) => names_type(m, ValueType::Json) && (m.json_value matches Some(x) && x@
            == s),
        ValueView::Array(a) => names_type(m, ValueType::Array) && (m.list_value matches Some(x) && views(
            x@,
        ) == a),
        ValueView::Secret(c) => names_type(m, ValueType::Secret) && (m.ciphertext matches Some(x) && x@
            == c),
    }
}

/// The member `type` holds the word for the type.
pub open spec fn names_type(m: ValueMembers, ty: ValueType) -> bool {
    m.ty matches Some(t) && t@ == type_word(ty)
}

/// A value that is written as a JSON object is read back from the members of that object, whatever other
/// members it has.
pub proof fn law_value_is_read_back(m: ValueMembers, v: ValueView)
    requires
        are_members_of(m, v),
    ensures
        value_of_members(m) == Some(v),
{
    reveal_strlit("string");
    reveal_strlit("int");
    reveal_strlit("float");
    reveal_strlit("bool");
    reveal_strlit("json");
    reveal_strlit("array");
    reveal_strlit("secret");
    assert("string"@[1] == 't' && "secret"@[1] == 'e');
    assert("bool"@[0] == 'b' && "json"@[0] == 'j');
    assert("float"@[0] == 'f' && "array"@[0] == 'a');
}

/// What is read from members is what they say: of the type that they name, with what the member for that type
/// holds, or, where it is missing, with nothing in it. A secret has to be there.
pub proof fn law_members_decide(m: ValueMembers, v: ValueView)
    requires
        value_of_members(m) == Some(v),
    ensures
        match v {
            ValueView::String(s) => names_type(m, ValueType::String) && match m.str_value {
                Some(x) => s == x@,
                None => s.len() == 0,
            },
            ValueView::Int(i) => names_type(m, ValueType::Int) && match m.int_value {
                Some(x) => i == x,
                None => i == 0,
            },
            ValueView::Float(t) => names_type(m, ValueType::Float) && match m.float_value {
                Some(x) => t == x@,
                None => t == "0.0"@,
            },
            ValueView::Bool(b) => names_type(m, ValueType::Bool) && match m.bool_value {
                Some(x) => b == x,
                None => !b,
            },
            ValueView::Json(s) => names_type(m, ValueType::Json) && match m.json_value {
                Some(x) => s == x@,
                None => s.len() == 0,
            },
            ValueView::Array(a) => names_type(m, ValueType::Array) && match m.list_value {
                Some(x) => a == views(x@),
                None => a.len() == 0,
            },
            ValueView::Secret(c) => names_type(m, ValueType::Secret) && (m.ciphertext matches Some(x) && c
                == x@),
        },
{
}

/// The words for the types tell them apart.
pub proof fn law_words_tell_types_apart(a: ValueType, b: ValueType)
    requires
        type_word(a) == type_word(b),
    ensures
        a == b,
{
    reveal_strlit("string");
    reveal_strlit("int");
    reveal_strlit("float");
    reveal_strlit("bool");
    reveal_strlit("json");
    reveal_strlit("array");
    reveal_strlit("secret");
    assert("string"@[1] == 't' && "secret"@[1] == 'e');
    assert("float"@[0] == 'f' && "array"@[0] == 'a');
    assert("bool"@[0] == 'b' && "json"@[0] == 'j');
    assert("string"@.len() == 6 && "int"@.len() == 3 && "float"@.len() == 5 && "bool"@.len() == 4);
}

} // verus!
