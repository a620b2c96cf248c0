//! What rendering keeps: every item, in order, with a text that tells its value from all others of its type.
use vstd::prelude::*;

use crate::crypto::{decrypted, nonce_fits};
use crate::diff::finite_snap;
use crate::json::literals;
use crate::laws::changes::has_value;
use crate::model::{SnapView, ValueView};
use crate::ordmap::{has_row, is_listing, lemma_listing_drop_last, lemma_listing_exists, listing};
use crate::outside::{TreeView, json_char, json_literal, json_valid, lossy_text};
use crate::render::{
    env_group, env_groups, env_line, env_text, env_value, plain_text, plain_tree, revealed, upper,
};
use crate::text::{all_digits, dec, dec_value, is_digit, lemma_dec_value, signed_dec, text_less};

verus! {

/// The characters of a text as they stand inside a JSON string.
spec fn chars(text: Seq<char>) -> Seq<char> {
    text.map_values(|c: char| json_char(c)).flatten()
}

proof fn lemma_chars(text: Seq<char>)
    ensures
        text.len() == 0 ==> chars(text) == Seq::<char>::empty(),
        text.len() > 0 ==> chars(text) == json_char(text[0]) + chars(text.drop_first()),
{
    let m = text.map_values(|c: char| json_char(c));
    if text.len() > 0 {
        assert(m.drop_first() =~= text.drop_first().map_values(|c: char| json_char(c)));
    }
}

/// No character begins like another one goes on: what two texts begin with tells the characters apart.
proof fn lemma_char_apart(c: char, d: char, x: Seq<char>, y: Seq<char>)
    requires
        json_char(c) + x == json_char(d) + y,
    ensures
        c == d,
        x == y,
{
    reveal_strlit("0123456789abcdef");
    let a = json_char(c);
    let b = json_char(d);
    let all = a + x;
    assert(all[0] == a[0] && all[0] == b[0]);
    if a.len() > 1 {
        assert(all[1] == a[1]);
    }
    if b.len() > 1 {
        assert(all[1] == b[1]);
    }
    if a.len() == 6 && b.len() == 6 {
        assert(all[4] == a[4] && all[4] == b[4]);
        assert(all[5] == a[5] && all[5] == b[5]);
        assert(c as int / 16 == d as int / 16);
        assert(c as int % 16 == d as int % 16);
        assert(c as int == d as int);
    }
    assert(c == d);
    assert(x =~= all.skip(a.len() as int));
    assert(y =~= all.skip(a.len() as int));
}

/// Texts that are closed by a quote can be told apart, whatever follows.
proof fn lemma_closed_apart(a: Seq<char>, b: Seq<char>, x: Seq<char>, y: Seq<char>)
    requires
        chars(a) + seq!['"'] + x == chars(b) + seq!['"'] + y,
    ensures
        a == b,
        x == y,
    decreases a.len(),
{
    lemma_chars(a);
    lemma_chars(b);
    let all = chars(a) + seq!['"'] + x;
    if a.len() == 0 && b.len() == 0 {
        assert(all.skip(1) =~= x);
        assert(all.skip(1) =~= y);
        assert(a =~= b);
    } else if a.len() == 0 {
        assert(all[0] == '"');
        assert(all[0] == json_char(b[0])[0]);
    } else if b.len() == 0 {
        assert(all[0] == '"');
        assert(all[0] == json_char(a[0])[0]);
    } else {
        let p = chars(a.drop_first()) + seq!['"'] + x;
        let q = chars(b.drop_first()) + seq!['"'] + y;
        assert(all =~= json_char(a[0]) + p);
        assert(all =~= json_char(b[0]) + q);
        lemma_char_apart(a[0], b[0], p, q);
        lemma_closed_apart(a.drop_first(), b.drop_first(), x, y);
        assert(a =~= seq![a[0]] + a.drop_first());
        assert(b =~= seq![b[0]] + b.drop_first());
    }
}

proof fn lemma_literal_apart(a: Seq<char>, b: Seq<char>, x: Seq<char>, y: Seq<char>)
    requires
        json_literal(a) + x == json_literal(b) + y,
    ensures
        a == b,
        x == y,
{
    let p = chars(a) + seq!['"'] + x;
    let q = chars(b) + seq!['"'] + y;
    assert(json_literal(a) + x =~= seq!['"'] + p);
    assert(json_literal(b) + y =~= seq!['"'] + q);
    assert((seq!['"'] + p).skip(1) =~= p);
    assert((seq!['"'] + q).skip(1) =~= q);
    lemma_closed_apart(a, b, x, y);
}

/// JSON string literals tell texts apart.
pub proof fn law_literals_tell_texts_apart(a: Seq<char>, b: Seq<char>)
    requires
        json_literal(a) == json_literal(b),
    ensures
        a == b,
{
    assert(json_literal(a) + Seq::<char>::empty() =~= json_literal(b) + Seq::<char>::empty());
    lemma_literal_apart(a, b, Seq::empty(), Seq::empty());
}

proof fn lemma_literals_first(s: Seq<Seq<char>>)
    requires
        s.len() >= 2,
    ensures
        literals(s) == json_literal(s[0]) + (seq![','] + literals(s.drop_first())),
    decreases s.len(),
{
    reveal_strlit(",");
    assert(","@ =~= seq![',']);
    if s.len() == 2 {
        assert(s.drop_last() =~= seq![s[0]]);
        assert(s.drop_first() =~= seq![s[1]]);
        assert(literals(s.drop_last()) == json_literal(s[0]));
        assert(literals(s.drop_first()) == json_literal(s[1]));
        assert(literals(s) =~= json_literal(s[0]) + (seq![','] + literals(s.drop_first())));
    } else {
        let d = s.drop_last();
        lemma_literals_first(d);
        assert(d.drop_first() =~= s.drop_first().drop_last());
        assert(s.drop_first().last() == s.last());
        assert(literals(s.drop_first()) == literals(d.drop_first()) + ","@ + json_literal(s.last()));
        assert(literals(s) =~= json_literal(s[0]) + (seq![','] + literals(s.drop_first())));
    }
}

proof fn lemma_lists_apart(a: Seq<Seq<char>>, b: Seq<Seq<char>>)
    requires
        literals(a) + seq![']'] == literals(b) + seq![']'],
    ensures
        a == b,
    decreases a.len(),
{
    let all = literals(a) + seq![']'];
    let ra = if a.len() >= 2 {
        seq![','] + literals(a.drop_first()) + seq![']']
    } else {
        seq![']']
    };
    let rb = if b.len() >= 2 {
        seq![','] + literals(b.drop_first()) + seq![']']
    } else {
        seq![']']
    };
    if a.len() >= 2 {
        lemma_literals_first(a);
    }
    if b.len() >= 2 {
        lemma_literals_first(b);
    }
    if a.len() > 0 {
        assert(all =~= json_literal(a[0]) + ra);
        assert(all[0] == '"');
    } else {
        assert(all[0] == ']');
    }
    if b.len() > 0 {
        assert(all =~= json_literal(b[0]) + rb);
        assert(all[0] == '"');
    } else {
        assert(all[0] == ']');
    }
    if a.len() > 0 && b.len() > 0 {
        lemma_literal_apart(a[0], b[0], ra, rb);
        assert(ra[0] == rb[0]);
        if a.len() >= 2 {
            let x = literals(a.drop_first()) + seq![']'];
            let y = literals(b.drop_first()) + seq![']'];
            assert(ra.skip(1) =~= x);
            assert(rb.skip(1) =~= y);
            lemma_lists_apart(a.drop_first(), b.drop_first());
        } else {
            assert(a.drop_first() =~= b.drop_first());
        }
        assert(a =~= seq![a[0]] + a.drop_first());
        assert(b =~= seq![b[0]] + b.drop_first());
    } else {
        assert(a =~= b);
    }
}

/// Whether the values are of one type, and none is secret.
pub open spec fn are_comparable(a: ValueView, b: ValueView) -> bool {
    match (a, b) {
        (ValueView::String(_), ValueView::String(_)) => true,
        (ValueView::Int(_), ValueView::Int(_)) => true,
        (ValueView::Float(_), ValueView::Float(_)) => true,
        (ValueView::Bool(_), ValueView::Bool(_)) => true,
        (ValueView::Json(x), ValueView::Json(y)) => json_valid(x) == json_valid(y),
        (ValueView::Array(_), ValueView::Array(_)) => true,
        _ => false,
    }
}

/// Rendering tells the values of a type apart. Of JSON documents, it tells apart those that can be read, and
/// those that cannot.
pub proof fn law_rendering_tells_values_apart(a: ValueView, b: ValueView)
    requires
        are_comparable(a, b),
        plain_text(a) == plain_text(b),
    ensures
        a == b,
{
    reveal_strlit("true");
    reveal_strlit("false");
    match (a, b) {
        (ValueView::String(x), ValueView::String(y)) => {
            law_literals_tell_texts_apart(x, y);
        },
        (ValueView::Int(x), ValueView::Int(y)) => {
            law_numbers_are_spelled(x as int);
            law_numbers_are_spelled(y as int);
        },
        (ValueView::Bool(x), ValueView::Bool(y)) => {
            assert("true"@.len() == 4 && "false"@.len() == 5);
        },
        (ValueView::Json(x), ValueView::Json(y)) => {
            if !json_valid(x) {
                law_literals_tell_texts_apart(x, y);
            }
        },
        (ValueView::Array(x), ValueView::Array(y)) => {
            reveal_strlit("[");
            reveal_strlit("]");
            assert("["@ =~= seq!['[']);
            assert("]"@ =~= seq![']']);
            assert(("["@ + literals(x) + "]"@).skip(1) =~= literals(x) + seq![']']);
            assert(("["@ + literals(y) + "]"@).skip(1) =~= literals(y) + seq![']']);
            lemma_lists_apart(x, y);
        },
        _ => {},
    }
}

/// The text of a number spells it: its digits have its size as their value, after a minus where it is
/// negative.
pub proof fn law_numbers_are_spelled(n: int)
    ensures
        ({
            let t = signed_dec(n);
            &&& n >= 0 ==> all_digits(t) && t.len() > 0 && dec_value(t) == n
            &&& n < 0 ==> t.len() > 1 && t[0] == '-' && all_digits(t.skip(1)) && dec_value(t.skip(1))
                == -n
        }),
{
    if n >= 0 {
        lemma_dec_value(n as nat);
        assert(is_digit(signed_dec(n)[0]));
    } else {
        lemma_dec_value((-n) as nat);
        assert(signed_dec(n).skip(1) =~= dec((-n) as nat));
    }
}

/// Whether a character stands for itself in a JSON string.
pub open spec fn is_plain_char(c: char) -> bool {
    c as int >= 0x20 && c != '"' && c != '\\'
}

proof fn lemma_plain_chars(s: Seq<char>)
    requires
        forall|i: int| 0 <= i < s.len() ==> is_plain_char(#[trigger] s[i]),
    ensures
        chars(s) == s,
    decreases s.len(),
{
    lemma_chars(s);
    if s.len() > 0 {
        assert forall|i: int| 0 <= i < s.drop_first().len() implies is_plain_char(
            #[trigger] s.drop_first()[i],
        ) by {
            assert(s.drop_first()[i] == s[i + 1]);
        }
        lemma_plain_chars(s.drop_first());
        assert(is_plain_char(s[0]));
        assert(json_char(s[0]) =~= seq![s[0]]);
        assert(s =~= seq![s[0]] + s.drop_first());
    } else {
        assert(s =~= Seq::empty());
    }
}

/// Rendering shows what a value holds: a text between quotes, the digits of a number, the word for a truth
/// value, a document that can be read as it is, and of a secret only stars.
pub proof fn law_rendering_shows_values(v: ValueView)
    ensures
        match v {
            ValueView::String(s) => (forall|i: int| 0 <= i < s.len() ==> is_plain_char(#[trigger] s[i]))
                ==> plain_text(v) == seq!['"'] + s + seq!['"'],
            ValueView::Int(n) => {
                let t = plain_text(v);
                &&& n >= 0 ==> all_digits(t) && dec_value(t) == n
                &&& n < 0 ==> t[0] == '-' && all_digits(t.skip(1)) && dec_value(t.skip(1)) == -n
            },
            ValueView::Float(t) => plain_text(v) == t,
            ValueView::Bool(b) => (plain_text(v) == "true"@ <==> b) && (plain_text(v) == "false"@ <==> !b),
            ValueView::Json(s) => json_valid(s) ==> plain_text(v) == s,
            ValueView::Array(a) => {
                &&& a.len() == 0 ==> plain_text(v) == seq!['[', ']']
                &&& a.len() == 1 ==> plain_text(v) == seq!['['] + json_literal(a[0]) + seq![']']
            },
            ValueView::Secret(_) => plain_text(v) == seq!['"', '*', '*', '*', '"'],
        },
{
    reveal_strlit("true");
    reveal_strlit("false");
    reveal_strlit("***");
    reveal_strlit("[");
    reveal_strlit("]");
    match v {
        ValueView::String(s) => {
            if forall|i: int| 0 <= i < s.len() ==> is_plain_char(#[trigger] s[i]) {
                lemma_plain_chars(s);
            }
        },
        ValueView::Int(n) => {
            law_numbers_are_spelled(n as int);
        },
        ValueView::Bool(_) => {
            assert("true"@.len() == 4 && "false"@.len() == 5);
        },
        ValueView::Array(a) => {
            assert("["@ =~= seq!['[']);
            assert("]"@ =~= seq![']']);
            if a.len() == 0 {
                assert(plain_text(v) =~= seq!['[', ']']);
            }
        },
        ValueView::Secret(_) => {
            assert("***"@ =~= seq!['*', '*', '*']);
            lemma_plain_chars("***"@);
            assert(plain_text(v) =~= seq!['"', '*', '*', '*', '"']);
        },
        _ => {},
    }
}

/// In a line for the environment a text stands as it is and a secret as stars; any other value stands as it
/// is rendered elsewhere.
pub proof fn law_lines_show_values(v: ValueView)
    ensures
        match v {
            ValueView::String(s) => env_value(v) == s,
            ValueView::Secret(_) => env_value(v) == seq!['*', '*', '*'],
            _ => env_value(v) == plain_text(v),
        },
{
    reveal_strlit("***");
    assert("***"@ =~= seq!['*', '*', '*']);
}

/// Whether a tree has the text for the item.
pub open spec fn shows(t: TreeView, g: Seq<char>, k: Seq<char>, text: Seq<char>) -> bool {
    exists|i: int, j: int|
        #![trigger t[i].1[j]]
        0 <= i < t.len() && 0 <= j < t[i].1.len() && t[i].0 == g && t[i].1[j] == (k, text)
}

/// What is rendered is the configuration: each item with the text of its value, in the order of groups and
/// keys, and nothing else.
pub proof fn law_rendering_shows_every_item(m: SnapView, g: Seq<char>, k: Seq<char>, text: Seq<char>)
    requires
        finite_snap(m),
    ensures
        shows(plain_tree(m), g, k, text) <==> (has_value(m, g, k) && text == plain_text(m[g][k])),
        plain_tree(m).len() == m.dom().len(),
        forall|i: int, j: int|
            0 <= i < j < plain_tree(m).len() ==> text_less(
                (#[trigger] plain_tree(m)[i]).0,
                (#[trigger] plain_tree(m)[j]).0,
            ),
        forall|i: int| #![trigger plain_tree(m)[i]]
            0 <= i < plain_tree(m).len() ==> m.contains_key(plain_tree(m)[i].0)
                && plain_tree(m)[i].1.len() == m[plain_tree(m)[i].0].dom().len() && (forall|a: int, b: int|
                0 <= a < b < plain_tree(m)[i].1.len() ==> text_less(
                    (#[trigger] plain_tree(m)[i].1[a]).0,
                    (#[trigger] plain_tree(m)[i].1[b]).0,
                )),
{
    lemma_listing_exists(m);
    let rows = listing(m);
    let t = plain_tree(m);
    lemma_listing_len(m, rows);
    assert forall|i: int| 0 <= i < rows.len() implies m.contains_key((#[trigger] rows[i]).0) && m[rows[i].0]
        == rows[i].1 && is_listing(rows[i].1, listing(rows[i].1)) && listing(rows[i].1).len()
        == rows[i].1.dom().len() by {
        assert(m.contains_key(rows[i].0));
        lemma_listing_exists(rows[i].1);
        lemma_listing_len(rows[i].1, listing(rows[i].1));
    }
    assert forall|i: int, j: int| 0 <= i < j < t.len() implies text_less(
        (#[trigger] t[i]).0,
        (#[trigger] t[j]).0,
    ) by {
        assert(text_less(rows[i].0, rows[j].0));
    }
    assert forall|i: int| #![trigger t[i]] 0 <= i < t.len() implies m.contains_key(t[i].0) && t[i].1.len()
        == m[t[i].0].dom().len() && (forall|a: int, b: int|
        0 <= a < b < t[i].1.len() ==> text_less((#[trigger] t[i].1[a]).0, (#[trigger] t[i].1[b]).0)) by {
        assert(m.contains_key(rows[i].0));
        let x = listing(rows[i].1);
        assert forall|a: int, b: int| 0 <= a < b < t[i].1.len() implies text_less(
            (#[trigger] t[i].1[a]).0,
            (#[trigger] t[i].1[b]).0,
        ) by {
            assert(text_less(x[a].0, x[b].0));
        }
    }
    if has_value(m, g, k) && text == plain_text(m[g][k]) {
        assert(has_row(rows, g));
        let i = choose|i: int| 0 <= i < rows.len() && #[trigger] rows[i].0 == g;
        assert(m.contains_key(rows[i].0));
        let x = listing(rows[i].1);
        assert(has_row(x, k));
        let j = choose|j: int| 0 <= j < x.len() && #[trigger] x[j].0 == k;
        assert(rows[i].1.contains_key(x[j].0));
        assert(t[i].1[j] == (k, text));
    }
    if shows(t, g, k, text) {
        let (i, j) = choose|i: int, j: int|
            #![trigger t[i].1[j]]
            0 <= i < t.len() && 0 <= j < t[i].1.len() && t[i].0 == g && t[i].1[j] == (k, text);
        assert(m.contains_key(rows[i].0));
        let x = listing(rows[i].1);
        assert(rows[i].1.contains_key(x[j].0));
    }
}

/// A listing has as many rows as the map has keys.
proof fn lemma_listing_len<T>(m: Map<Seq<char>, T>, rows: Seq<(Seq<char>, T)>)
    requires
        is_listing(m, rows),
    ensures
        m.dom().finite(),
        rows.len() == m.dom().len(),
    decreases rows.len(),
{
    if rows.len() == 0 {
        assert forall|k: Seq<char>| !m.contains_key(k) by {
            if m.contains_key(k) {
                assert(has_row(rows, k));
            }
        }
        assert(m.dom() =~= Set::empty());
    } else {
        let last = rows.last();
        lemma_listing_drop_last(m, rows);
        lemma_listing_len(m.remove(last.0), rows.drop_last());
        assert(m.contains_key(rows[rows.len() - 1].0));
        assert(m.dom() =~= m.remove(last.0).dom().insert(last.0));
    }
}

/// A name in upper case has as many characters, the letters 32 places further down in the code.
pub proof fn law_upper_case_moves_letters(s: Seq<char>, i: int)
    requires
        0 <= i < s.len(),
    ensures
        upper(s).len() == s.len(),
        'a' <= s[i] <= 'z' ==> upper(s)[i] as int == s[i] as int - 32,
        !('a' <= s[i] <= 'z') ==> upper(s)[i] == s[i],
{
    reveal_strlit("ABCDEFGHIJKLMNOPQRSTUVWXYZ");
}

/// Whether a text holds a part.
pub open spec fn has_part(text: Seq<char>, part: Seq<char>) -> bool {
    exists|a: Seq<char>, b: Seq<char>| text == #[trigger] ((a + part) + b)
}

proof fn lemma_part_in_group(group: Seq<char>, rows: Seq<(Seq<char>, ValueView)>, n: nat, j: int)
    requires
        0 <= j < n <= rows.len(),
    ensures
        has_part(env_group(group, rows, n), env_line(group, rows[j].0, rows[j].1)),
    decreases n,
{
    let line = env_line(group, rows[j].0, rows[j].1);
    let before = env_group(group, rows, (n - 1) as nat);
    let all = env_group(group, rows, n);
    if j == n - 1 {
        assert(all =~= (before + line) + Seq::<char>::empty());
    } else {
        lemma_part_in_group(group, rows, (n - 1) as nat, j);
        let (a, b) = choose|a: Seq<char>, b: Seq<char>| before == #[trigger] ((a + line) + b);
        let rest = env_line(group, rows[n - 1].0, rows[n - 1].1);
        assert(all =~= (a + line) + (b + rest));
    }
}

proof fn lemma_part_in_groups(rows: Seq<(Seq<char>, Map<Seq<char>, ValueView>)>, n: nat, i: int, j: int)
    requires
        0 <= i < n <= rows.len(),
        0 <= j < listing(rows[i].1).len(),
    ensures
        has_part(
            env_groups(rows, n),
            env_line(rows[i].0, listing(rows[i].1)[j].0, listing(rows[i].1)[j].1),
        ),
    decreases n,
{
    let line = env_line(rows[i].0, listing(rows[i].1)[j].0, listing(rows[i].1)[j].1);
    let before = env_groups(rows, (n - 1) as nat);
    let items = listing(rows[n - 1].1);
    let here = env_group(rows[n - 1].0, items, items.len());
    let all = env_groups(rows, n);
    assert(all == before + here);
    if i == n - 1 {
        lemma_part_in_group(rows[i].0, items, items.len(), j);
        let (a, b) = choose|a: Seq<char>, b: Seq<char>| here == #[trigger] ((a + line) + b);
        assert(all =~= ((before + a) + line) + b);
    } else {
        lemma_part_in_groups(rows, (n - 1) as nat, i, j);
        let (a, b) = choose|a: Seq<char>, b: Seq<char>| before == #[trigger] ((a + line) + b);
        assert(all =~= (a + line) + (b + here));
    }
}

/// Every item has its line for the environment: group and key in upper case with two underscores between
/// them, an equals sign, the value, and the end of the line.
pub proof fn law_every_item_has_its_line(m: SnapView, g: Seq<char>, k: Seq<char>)
    requires
        finite_snap(m),
        has_value(m, g, k),
    ensures
        has_part(
            env_text(m),
            upper(g) + seq!['_', '_'] + upper(k) + seq!['='] + env_value(m[g][k]) + seq!['\n'],
        ),
{
    reveal_strlit("__");
    reveal_strlit("=");
    reveal_strlit("\n");
    assert("__"@ =~= seq!['_', '_']);
    assert("="@ =~= seq!['=']);
    assert("\n"@ =~= seq!['\n']);
    lemma_listing_exists(m);
    let rows = listing(m);
    assert(has_row(rows, g));
    let i = choose|i: int| 0 <= i < rows.len() && #[trigger] rows[i].0 == g;
    assert(m.contains_key(rows[i].0));
    lemma_listing_exists(rows[i].1);
    let x = listing(rows[i].1);
    assert(has_row(x, k));
    let j = choose|j: int| 0 <= j < x.len() && #[trigger] x[j].0 == k;
    assert(rows[i].1.contains_key(x[j].0));
    lemma_part_in_groups(rows, rows.len(), i, j);
}

/// Secrets in the clear: a secret that the keys decrypt becomes its text, one that they do not becomes stars,
/// and any other value stays as it is.
pub proof fn law_reveal_decrypts(keys: Seq<Seq<u8>>, v: ValueView)
    ensures
        !(v is Secret) ==> revealed(keys, v) == v,
        v matches ValueView::Secret(c) ==> (revealed(keys, v) is String) && (nonce_fits(c.edek_nonce)
            && nonce_fits(c.nonce) && decrypted(keys, c) is Ok ==> revealed(keys, v) == ValueView::String(
            lossy_text(decrypted(keys, c)->Ok_0),
        )) && (decrypted(keys, c) is Err ==> revealed(keys, v) == ValueView::String("***"@)),
{
}

} // verus!
