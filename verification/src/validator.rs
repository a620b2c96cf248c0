//! Checks of values, drafts, names and structures.
use vstd::prelude::*;
use vstd::std_specs::iter::IteratorSpec;
use vstd::string::{StrSliceExecFns, StringExecFns};
use vstd::utf8::encode_utf8;

use crate::dup::{view_opt, views};
use crate::gather::{gather, one_if};
use crate::limits::{
    MAX_ARRAY_ELEMENT_BYTES, MAX_DESC_BYTES, MAX_GROUPS_PER_PROJECT, MAX_GROUP_NAME_BYTES,
    MAX_ITEMS_PER_PROJECT, MAX_KEY_BYTES, MAX_VALUE_BYTES,
};
use crate::model::{
    DraftValue, DraftValueView, GroupDef, GroupDefView, ItemDef, ItemDefView, Structure,
    StructureView, Value, ValueType, ValueView,
};
use crate::ordmap::OrdMap;
use crate::outside::{is_json, json_valid, quote, quoted};

verus! {

/// The length of a text in UTF-8.
pub open spec fn utf8_len(s: Seq<char>) -> nat {
    encode_utf8(s).len()
}

pub fn byte_len(s: &str) -> (r: usize)
    ensures
        r == utf8_len(s@),
{
    s.as_bytes().len()
}

/// The name of a value type.
pub open spec fn type_text(ty: ValueType) -> Seq<char> {
    match ty {
        ValueType::String => "String"@,
        ValueType::Int => "Int"@,
        ValueType::Float => "Float"@,
        ValueType::Bool => "Bool"@,
        ValueType::Json => "Json"@,
        ValueType::Array => "Array"@,
        ValueType::Secret => "Secret"@,
    }
}

fn name_of_type(ty: ValueType) -> (r: &'static str)
    ensures
        r@ == type_text(ty),
{
    match ty {
        ValueType::String => "String",
        ValueType::Int => "Int",
        ValueType::Float => "Float",
        ValueType::Bool => "Bool",
        ValueType::Json => "Json",
        ValueType::Array => "Array",
        ValueType::Secret => "Secret",
    }
}

pub open spec fn some_long(elements: Seq<Seq<char>>) -> bool {
    exists|i: int| 0 <= i < elements.len() && utf8_len(#[trigger] elements[i]) > MAX_ARRAY_ELEMENT_BYTES
}

/// What is wrong with a value for an item.
pub open spec fn value_errors(def: ItemDefView, value: ValueView) -> Seq<Seq<char>> {
    match (def.ty, value) {
        (ValueType::String, ValueView::String(s)) => one_if(
            utf8_len(s) > MAX_VALUE_BYTES,
            def.key + ": string too long"@,
        ),
        (ValueType::Int, ValueView::Int(_)) => Seq::empty(),
        (ValueType::Float, ValueView::Float(_)) => Seq::empty(),
        (ValueType::Bool, ValueView::Bool(_)) => Seq::empty(),
        (ValueType::Json, ValueView::Json(s)) => one_if(!json_valid(s), def.key + ": invalid json"@),
        (ValueType::Array, ValueView::Array(elements)) => one_if(
            some_long(elements),
            def.key + ": array element too long"@,
        ),
        (ValueType::Secret, ValueView::Secret(_)) => Seq::empty(),
        _ => seq![def.key + ": type mismatch (expected "@ + type_text(def.ty) + ")"@],
    }
}

/// The message `a` followed by `b`.
fn message(a: &str, b: &str) -> (r: String)
    ensures
        r@ == a@ + b@,
{
    let mut m: String = a.to_owned();
    m.append(b);
    m
}

fn has_long(elements: &Vec<String>) -> (r: bool)
    ensures
        r == some_long(views(elements@)),
{
    let mut i: usize = 0;
    while i < elements.len()
        invariant
            i <= elements@.len(),
            forall|j: int|
                0 <= j < i ==> utf8_len(#[trigger] views(elements@)[j]) <= MAX_ARRAY_ELEMENT_BYTES,
        decreases elements@.len() - i,
    {
        if byte_len(elements[i].as_str()) > MAX_ARRAY_ELEMENT_BYTES {
            assert(utf8_len(views(elements@)[i as int]) > MAX_ARRAY_ELEMENT_BYTES);
            return true;
        }
        i = i + 1;
    }
    false
}

fn push(errs: &mut Vec<String>, m: String)
    ensures
        views(final(errs)@) == views(old(errs)@).push(m@),
{
    let ghost before = views(errs@);
    let ghost t = m@;
    errs.push(m);
    assert(views(errs@) =~= before.push(t));
}

/// What is wrong with a value for an item; nothing where it fits.
pub fn validate_value(def: &ItemDef, value: &Value) -> (r: Vec<String>)
    ensures
        views(r@) == value_errors(def@, value@),
{
    let mut errs: Vec<String> = Vec::new();
    assert(views(errs@) =~= Seq::empty());
    match (def.ty, value) {
        (ValueType::String, Value::String(s)) => {
            if byte_len(s.as_str()) > MAX_VALUE_BYTES {
                push(&mut errs, message(def.key.as_str(), ": string too long"));
            }
        },
        (ValueType::Int, Value::Int(_)) => {},
        (ValueType::Float, Value::Float(_)) => {},
        (ValueType::Bool, Value::Bool(_)) => {},
        (ValueType::Json, Value::Json(s)) => {
            if !is_json(s.as_str()) {
                push(&mut errs, message(def.key.as_str(), ": invalid json"));
            }
        },
        (ValueType::Array, Value::Array(elements)) => {
            if has_long(elements) {
                push(&mut errs, message(def.key.as_str(), ": array element too long"));
            }
        },
        (ValueType::Secret, Value::Secret(_)) => {},
        _ => {
            let mut m: String = message(def.key.as_str(), ": type mismatch (expected ");
            m.append(name_of_type(def.ty));
            m.append(")");
            push(&mut errs, m);
        },
    }
    assert(views(errs@) =~= value_errors(def@, value@));
    errs
}

/// A draft: group, then key.
pub type DraftView = Map<Seq<char>, Map<Seq<char>, DraftValueView>>;

/// What is wrong with one item of a draft that is to be published.
pub open spec fn item_errors(draft: DraftView, group: Seq<char>, item: ItemDefView) -> Seq<Seq<char>> {
    if draft.contains_key(group) && draft[group].contains_key(item.key) {
        value_errors(item, draft[group][item.key].value)
    } else {
        one_if(item.required, group + "/"@ + item.key + ": required but unset"@)
    }
}

pub open spec fn group_errors(draft: DraftView, g: GroupDefView) -> Seq<Seq<char>> {
    gather(g.items.len(), |i: int| item_errors(draft, g.name, g.items[i]))
}

/// What keeps a draft from being published: required items without a value, and values that do not
/// fit, in the order of the structure.
pub open spec fn publish_errors(draft: DraftView, s: StructureView) -> Seq<Seq<char>> {
    gather(s.groups.len(), |i: int| group_errors(draft, s.groups[i]))
}

fn extend(errs: &mut Vec<String>, more: Vec<String>)
    ensures
        views(final(errs)@) == views(old(errs)@) + views(more@),
{
    let ghost before = views(errs@);
    let ghost added = views(more@);
    let mut more: Vec<String> = more;
    errs.append(&mut more);
    assert(views(errs@) =~= before + added);
}

/// What keeps a draft from being published; nothing where it may be.
pub fn validate_publish(draft: &OrdMap<OrdMap<DraftValue>>, structure: &Structure) -> (r: Vec<String>)
    ensures
        views(r@) == publish_errors(draft@, structure@),
{
    let mut errs: Vec<String> = Vec::new();
    assert(views(errs@) =~= Seq::empty());
    let ghost fg = |i: int| group_errors(draft@, structure@.groups[i]);
    let mut i: usize = 0;
    while i < structure.groups.len()
        invariant
            i <= structure.groups@.len(),
            fg == |i: int| group_errors(draft@, structure@.groups[i]),
            views(errs@) == gather(i as nat, fg),
        decreases structure.groups@.len() - i,
    {
        let g: &GroupDef = &structure.groups[i];
        let ghost done = views(errs@);
        let ghost fi = |j: int| item_errors(draft@, g@.name, g@.items[j]);
        let mut j: usize = 0;
        assert(done + gather(0, fi) =~= done);
        while j < g.items.len()
            invariant
                j <= g.items@.len(),
                fi == |j: int| item_errors(draft@, g@.name, g@.items[j]),
                views(errs@) == done + gather(j as nat, fi),
            decreases g.items@.len() - j,
        {
            let item: &ItemDef = &g.items[j];
            assert(item@ == g@.items[j as int]);
            let has: Option<&DraftValue> = match draft.get(g.name.as_str()) {
                Some(m) => m.get(item.key.as_str()),
                None => None,
            };
            match has {
                Some(dv) => {
                    let more: Vec<String> = validate_value(item, &dv.value);
                    extend(&mut errs, more);
                },
                None => {
                    if item.required {
                        let mut m: String = message(g.name.as_str(), "/");
                        m.append(item.key.as_str());
                        m.append(": required but unset");
                        push(&mut errs, m);
                    }
                },
            }
            assert(gather((j + 1) as nat, fi) == gather(j as nat, fi) + fi(j as int));
            assert(views(errs@) =~= done + gather((j + 1) as nat, fi));
            j = j + 1;
        }
        assert(fg(i as int) == group_errors(draft@, g@)) by {
            assert(structure@.groups[i as int] == g@);
        }
        assert(group_errors(draft@, g@) == gather(g.items@.len(), fi));
        assert(gather((i + 1) as nat, fg) == gather(i as nat, fg) + fg(i as int));
        i = i + 1;
    }
    errs
}

/// A character of a key: a letter, a digit, a dot, an underscore or a hyphen.
pub open spec fn key_char(c: char) -> bool {
    ('a' <= c <= 'z') || ('A' <= c <= 'Z') || ('0' <= c <= '9') || c == '.' || c == '_' || c == '-'
}

/// A name of 1 to 128 key characters.
pub open spec fn is_key_name(s: Seq<char>) -> bool {
    0 < s.len() <= 128 && forall|i: int| 0 <= i < s.len() ==> key_char(#[trigger] s[i])
}

/// Whether `name` may name a group or an item: 1 to 128 of `[A-Za-z0-9._-]`. No name holds the
/// separator of the keys, nor anything that a page would have to escape.
pub fn valid_key_name(name: &str) -> (r: bool)
    ensures
        r == is_key_name(name@),
{
    let mut it = name.chars();
    let n: usize = name.unicode_len();
    if n == 0 || n > 128 {
        return false;
    }
    let mut i: usize = 0;
    while i < n
        invariant
            i <= n == name@.len(),
            it.remaining() == name@.skip(i as int),
            forall|j: int| 0 <= j < i ==> key_char(#[trigger] name@[j]),
        decreases n - i,
    {
        let c: char = match it.next() {
            Some(c) => c,
            None => {
                return false;
            },
        };
        assert(c == name@[i as int]);
        if !(('a' <= c && c <= 'z') || ('A' <= c && c <= 'Z') || ('0' <= c && c <= '9') || c == '.'
            || c == '_' || c == '-') {
            assert(!key_char(name@[i as int]));
            return false;
        }
        i = i + 1;
    }
    true
}

/// Whether a description is longer than the limit.
pub open spec fn long_description(description: Option<Seq<char>>) -> bool {
    description matches Some(d) && utf8_len(d) > MAX_DESC_BYTES
}

/// Whether a description is longer than the limit.
pub fn description_too_long(description: &Option<String>) -> (r: bool)
    ensures
        r == long_description(view_opt(*description)),
{
    match description {
        Some(d) => byte_len(d.as_str()) > MAX_DESC_BYTES,
        None => false,
    }
}

/// What is wrong with the item at `i` of a group.
pub open spec fn item_def_errors(g: GroupDefView, i: int) -> Seq<Seq<char>> {
    let item = g.items[i];
    one_if(
        utf8_len(item.key) > MAX_KEY_BYTES || item.key.len() == 0,
        item.key + ": invalid key length"@,
    ) + one_if(
        !is_key_name(item.key),
        item.key + ": invalid key name: only [A-Za-z0-9._-] allowed"@,
    ) + one_if(
        exists|j: int| 0 <= j < i && (#[trigger] g.items[j]).key == item.key,
        g.name + "/"@ + item.key + ": duplicate item key"@,
    ) + one_if(
        item.secret && item.ty != ValueType::Secret,
        g.name + "/"@ + item.key + ": secret flag requires secret type"@,
    ) + one_if(
        long_description(item.description),
        g.name + "/"@ + item.key + ": description too long (max 200)"@,
    )
}

/// What is wrong with the group at `i`.
pub open spec fn group_def_errors(groups: Seq<GroupDefView>, i: int) -> Seq<Seq<char>> {
    let g = groups[i];
    one_if(
        utf8_len(g.name) > MAX_GROUP_NAME_BYTES || g.name.len() == 0,
        "invalid group name length"@,
    ) + one_if(
        !is_key_name(g.name),
        "invalid group name "@ + quoted(g.name) + ": only [A-Za-z0-9._-] allowed"@,
    ) + one_if(
        exists|j: int| 0 <= j < i && (#[trigger] groups[j]).name == g.name,
        "duplicate group: "@ + g.name,
    ) + gather(g.items.len(), |j: int| item_def_errors(g, j))
}

/// The number of items in the first `n` groups.
pub open spec fn count_items(groups: Seq<GroupDefView>, n: nat) -> nat
    decreases n,
{
    if n == 0 {
        0
    } else {
        count_items(groups, (n - 1) as nat) + groups[n - 1].items.len()
    }
}

/// What is wrong with a structure: names that are too long, not made of key characters or taken
/// twice, secret items of another type, and more groups or items than a project may have.
pub open spec fn structure_errors(groups: Seq<GroupDefView>) -> Seq<Seq<char>> {
    one_if(groups.len() > MAX_GROUPS_PER_PROJECT, "too many groups (max 500)"@) + gather(
        groups.len(),
        |i: int| group_def_errors(groups, i),
    ) + one_if(
        count_items(groups, groups.len()) > MAX_ITEMS_PER_PROJECT,
        "too many items (max 10000)"@,
    )
}

fn push_if(errs: &mut Vec<String>, wrong: bool, m: String)
    ensures
        views(final(errs)@) == views(old(errs)@) + one_if(wrong, m@),
{
    let ghost before = views(errs@);
    let ghost t = m@;
    if wrong {
        push(errs, m);
    }
    assert(views(errs@) =~= before + one_if(wrong, t));
}

fn slashed(group: &str, key: &str, what: &str) -> (r: String)
    ensures
        r@ == group@ + "/"@ + key@ + what@,
{
    let mut m: String = message(group, "/");
    m.append(key);
    m.append(what);
    m
}

/// Checks the items of one group.
fn validate_items(g: &GroupDef, errs: &mut Vec<String>)
    ensures
        views(final(errs)@) == views(old(errs)@) + gather(
            g@.items.len(),
            |j: int| item_def_errors(g@, j),
        ),
{
    let ghost before = views(errs@);
    let ghost f = |j: int| item_def_errors(g@, j);
    let mut seen: OrdMap<bool> = OrdMap::new();
    let mut i: usize = 0;
    assert(before + gather(0, f) =~= before);
    while i < g.items.len()
        invariant
            i <= g.items@.len(),
            f == |j: int| item_def_errors(g@, j),
            views(errs@) == before + gather(i as nat, f),
            forall|k: Seq<char>| #[trigger]
                seen@.contains_key(k) <==> exists|j: int| 0 <= j < i && (#[trigger] g@.items[j]).key == k,
        decreases g.items@.len() - i,
    {
        let item: &ItemDef = &g.items[i];
        assert(item@ == g@.items[i as int]);
        let ghost done = views(errs@);
        let key: &str = item.key.as_str();
        push_if(
            errs,
            byte_len(key) > MAX_KEY_BYTES || key.is_empty(),
            message(key, ": invalid key length"),
        );
        push_if(
            errs,
            !valid_key_name(key),
            message(key, ": invalid key name: only [A-Za-z0-9._-] allowed"),
        );
        let twice: bool = seen.contains_key(key);
        let ghost was = seen@;
        seen.insert(item.key.clone(), true);
        push_if(errs, twice, slashed(g.name.as_str(), key, ": duplicate item key"));
        push_if(
            errs,
            item.secret && item.ty != ValueType::Secret,
            slashed(g.name.as_str(), key, ": secret flag requires secret type"),
        );
        push_if(
            errs,
            description_too_long(&item.description),
            slashed(g.name.as_str(), key, ": description too long (max 200)"),
        );
        proof {
            assert(views(errs@) =~= done + item_def_errors(g@, i as int));
            assert(gather((i + 1) as nat, f) == gather(i as nat, f) + f(i as int));
            assert(views(errs@) =~= before + gather((i + 1) as nat, f));
            assert forall|k: Seq<char>| #[trigger] seen@.contains_key(k) <==> exists|j: int|
                0 <= j < i + 1 && (#[trigger] g@.items[j]).key == k by {
                if k == item@.key {
                    assert(g@.items[i as int].key == k);
                }
                if was.contains_key(k) {
                    let j = choose|j: int| 0 <= j < i && (#[trigger] g@.items[j]).key == k;
                    assert(g@.items[j].key == k);
                }
            }
        }
        i = i + 1;
    }
}

/// What is wrong with a structure; nothing where it may be published.
pub fn validate_structure(structure: &Structure) -> (r: Vec<String>)
    ensures
        views(r@) == structure_errors(structure@.groups),
{
    let ghost groups = structure@.groups;
    let mut errs: Vec<String> = Vec::new();
    assert(views(errs@) =~= Seq::empty());
    push_if(
        &mut errs,
        structure.groups.len() > MAX_GROUPS_PER_PROJECT,
        "too many groups (max 500)".to_owned(),
    );
    let ghost head = views(errs@);
    let ghost f = |j: int| group_def_errors(groups, j);
    let mut seen: OrdMap<bool> = OrdMap::new();
    let mut total: usize = 0;
    let mut over: bool = false;
    let mut i: usize = 0;
    assert(head + gather(0, f) =~= head);
    while i < structure.groups.len()
        invariant
            i <= structure.groups@.len(),
            groups == structure@.groups,
            f == |j: int| group_def_errors(groups, j),
            views(errs@) == head + gather(i as nat, f),
            over == (count_items(groups, i as nat) > MAX_ITEMS_PER_PROJECT),
            !over ==> total == count_items(groups, i as nat),
            forall|k: Seq<char>| #[trigger]
                seen@.contains_key(k) <==> exists|j: int| 0 <= j < i && (#[trigger] groups[j]).name == k,
        decreases structure.groups@.len() - i,
    {
        let g: &GroupDef = &structure.groups[i];
        assert(g@ == groups[i as int]);
        let ghost done = views(errs@);
        let name: &str = g.name.as_str();
        push_if(
            &mut errs,
            byte_len(name) > MAX_GROUP_NAME_BYTES || name.is_empty(),
            "invalid group name length".to_owned(),
        );
        let mut m: String = message("invalid group name ", quote(name).as_str());
        m.append(": only [A-Za-z0-9._-] allowed");
        push_if(&mut errs, !valid_key_name(name), m);
        let twice: bool = seen.contains_key(name);
        let ghost was = seen@;
        seen.insert(g.name.clone(), true);
        push_if(&mut errs, twice, message("duplicate group: ", name));
        validate_items(g, &mut errs);
        proof {
            assert(views(errs@) =~= done + group_def_errors(groups, i as int));
            assert(gather((i + 1) as nat, f) == gather(i as nat, f) + f(i as int));
            assert(views(errs@) =~= head + gather((i + 1) as nat, f));
            assert forall|k: Seq<char>| #[trigger] seen@.contains_key(k) <==> exists|j: int|
                0 <= j < i + 1 && (#[trigger] groups[j]).name == k by {
                if k == g@.name {
                    assert(groups[i as int].name == k);
                }
                if was.contains_key(k) {
                    let j = choose|j: int| 0 <= j < i && (#[trigger] groups[j]).name == k;
                    assert(groups[j].name == k);
                }
            }
        }
        if !over {
            if g.items.len() > MAX_ITEMS_PER_PROJECT - total {
                over = true;
            } else {
                total = total + g.items.len();
            }
        }
        i = i + 1;
    }
    push_if(&mut errs, over, "too many items (max 10000)".to_owned());
    errs
}

} // verus!
