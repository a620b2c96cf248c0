//! Configurations as YAML, TOML, JSON or lines for the environment.
use vstd::prelude::*;
use vstd::string::StringExecFns;

use crate::crypto::{Cipher, decrypted, nonce_fits};
use crate::dup::{Dup, pair_views};
use crate::error::{Error, ErrorKind, ErrorView, err, validation_err};
use crate::json::{bool_text, bool_word, framed, list_json, literals};
use crate::model::{CiphertextView, SnapView, SnapshotMap, Value, ValueView};
use crate::ordmap::{OrdMap, Recast, listing};
use crate::outside::{
    TreeRows, TreeView, is_json, json_literal, json_string, json_text, json_valid, lossy_text,
    text_lossy, toml_text, tree_view, write_json, write_toml, write_yaml, yaml_text,
};
use crate::text::{same, signed_dec, signed_decimal};

verus! {

/// A format of output.
#[derive(Debug, Clone, Copy, PartialEq, Eq, Structural)]
pub enum Format {
    Yaml,
    Toml,
    Json,
    /// Lines `GROUP__KEY=VALUE`.
    Env,
}

/// The format with the name.
pub open spec fn format_named(s: Seq<char>) -> Option<Format> {
    if s == "yaml"@ {
        Some(Format::Yaml)
    } else if s == "toml"@ {
        Some(Format::Toml)
    } else if s == "json"@ {
        Some(Format::Json)
    } else if s == "env"@ {
        Some(Format::Env)
    } else {
        None
    }
}

impl Format {
    pub fn parse(s: &str) -> (r: Result<Self, Error>)
        ensures
            match r {
                Ok(f) => format_named(s@) == Some(f),
                Err(e) => format_named(s@) is None && e@ == validation_err(
                    "unsupported format: "@ + s@,
                ),
            },
    {
        if same(s, "yaml") {
            Ok(Format::Yaml)
        } else if same(s, "toml") {
            Ok(Format::Toml)
        } else if same(s, "json") {
            Ok(Format::Json)
        } else if same(s, "env") {
            Ok(Format::Env)
        } else {
            let mut m: String = "unsupported format: ".to_owned();
            m.append(s);
            Err(Error::validation(m.as_str()))
        }
    }

    /// The media type of the format.
    pub fn mime(self) -> (r: &'static str)
        ensures
            r@ == match self {
                Format::Yaml => "application/yaml"@,
                Format::Toml => "application/toml"@,
                Format::Json => "application/json"@,
                Format::Env => "text/plain; charset=utf-8"@,
            },
    {
        match self {
            Format::Yaml => "application/yaml",
            Format::Toml => "application/toml",
            Format::Json => "application/json",
            Format::Env => "text/plain; charset=utf-8",
        }
    }
}

/// The JSON text of a value as it is rendered: without its type; a secret as stars; a JSON document as
/// itself, or as a string where it is none.
pub open spec fn plain_text(v: ValueView) -> Seq<char> {
    match v {
        ValueView::String(s) => json_literal(s),
        ValueView::Int(i) => signed_dec(i as int),
        ValueView::Float(t) => t,
        ValueView::Bool(b) => bool_text(b),
        ValueView::Json(s) => if json_valid(s) {
            s
        } else {
            json_literal(s)
        },
        ValueView::Array(a) => "["@ + literals(a) + "]"@,
        ValueView::Secret(_) => json_literal("***"@),
    }
}

/// The items of a group as they are rendered, in the order of the keys.
pub open spec fn plain_group(m: Map<Seq<char>, ValueView>) -> Seq<(Seq<char>, Seq<char>)> {
    Seq::new(listing(m).len(), |i: int| (listing(m)[i].0, plain_text(listing(m)[i].1)))
}

/// A configuration as it is rendered, in the order of groups and keys.
pub open spec fn plain_tree(m: SnapView) -> TreeView {
    Seq::new(listing(m).len(), |i: int| (listing(m)[i].0, plain_group(listing(m)[i].1)))
}

/// The text of a value as it is rendered.
pub fn plain_value(v: &Value) -> (r: String)
    ensures
        r@ == plain_text(v@),
{
    match v {
        Value::String(s) => json_string(s.as_str()),
        Value::Int(i) => signed_decimal(*i),
        Value::Float(f) => f.text.clone(),
        Value::Bool(b) => bool_word(*b).to_owned(),
        Value::Json(s) => {
            if is_json(s.as_str()) {
                s.clone()
            } else {
                json_string(s.as_str())
            }
        },
        Value::Array(a) => framed("[", list_json(a).as_str(), "]"),
        Value::Secret(_) => json_string("***"),
    }
}

fn group_rows(m: &OrdMap<Value>) -> (r: Vec<(String, String)>)
    ensures
        pair_views(r@) == plain_group(m@),
{
    let n: usize = m.len();
    let ghost want = plain_group(m@);
    let mut out: Vec<(String, String)> = Vec::new();
    let mut i: usize = 0;
    while i < n
        invariant
            i <= n == listing(m@).len(),
            i == out@.len(),
            want == plain_group(m@),
            forall|j: int|
                0 <= j < i ==> (#[trigger] out@[j]).0@ == want[j].0 && out@[j].1@ == want[j].1,
        decreases n - i,
    {
        out.push((m.key_at(i).clone(), plain_value(m.value_at(i))));
        i = i + 1;
    }
    assert(pair_views(out@) =~= want);
    out
}

/// The rows of a configuration as it is rendered.
pub fn plain_groups(m: &SnapshotMap) -> (r: TreeRows)
    ensures
        tree_view(r@) == plain_tree(m@),
{
    let n: usize = m.len();
    let ghost want = plain_tree(m@);
    let mut out: TreeRows = Vec::new();
    let mut i: usize = 0;
    while i < n
        invariant
            i <= n == listing(m@).len(),
            i == out@.len(),
            want == plain_tree(m@),
            forall|j: int|
                0 <= j < i ==> (#[trigger] out@[j]).0@ == want[j].0 && pair_views(out@[j].1@)
                    == want[j].1,
        decreases n - i,
    {
        out.push((m.key_at(i).clone(), group_rows(m.value_at(i))));
        i = i + 1;
    }
    assert(tree_view(out@) =~= want);
    out
}

/// What a writer gave, as the result of rendering.
pub open spec fn outcome(format: Format, given: Result<Seq<char>, Seq<char>>) -> Result<
    Seq<char>,
    ErrorView,
> {
    match given {
        Ok(s) => Ok(s),
        Err(e) => Err(
            err(
                ErrorKind::Validation,
                (match format {
                    Format::Yaml => "yaml: "@,
                    Format::Json => "json: "@,
                    Format::Toml => "toml（键需为合法标识符）: "@,
                    Format::Env => "env: "@,
                }) + e,
            ),
        ),
    }
}

/// Turns what a writer gave into the result of rendering.
pub fn rendered(format: Format, given: Result<String, String>) -> (r: Result<String, Error>)
    ensures
        match r {
            Ok(s) => given matches Ok(t) && s@ == t@,
            Err(e) => given matches Err(m) && outcome(format, Err(m@)) == Err::<Seq<char>, ErrorView>(
                e@,
            ),
        },
{
    match given {
        Ok(s) => Ok(s),
        Err(e) => {
            let mut m: String = match format {
                Format::Yaml => "yaml: ".to_owned(),
                Format::Json => "json: ".to_owned(),
                Format::Toml => "toml（键需为合法标识符）: ".to_owned(),
                Format::Env => "env: ".to_owned(),
            };
            m.append(e.as_str());
            Err(Error::new(ErrorKind::Validation, m.as_str()))
        },
    }
}

/// What the writer of a format gives for a configuration.
pub open spec fn written(format: Format, m: SnapView) -> Result<Seq<char>, Seq<char>> {
    match format {
        Format::Yaml => yaml_text(plain_tree(m)),
        Format::Json => json_text(plain_tree(m)),
        Format::Toml => toml_text(plain_tree(m)),
        Format::Env => Ok(env_text(m)),
    }
}

/// The renderer.
pub struct Renderer;

impl Renderer {
    /// Renders a configuration.
    pub fn render(&self, groups: &SnapshotMap, format: Format) -> (r: Result<String, Error>)
        ensures
            match r {
                Ok(s) => outcome(format, written(format, groups@)) == Ok::<Seq<char>, ErrorView>(s@),
                Err(e) => outcome(format, written(format, groups@)) == Err::<Seq<char>, ErrorView>(
                    e@,
                ),
            },
    {
        let given: Result<String, String> = match format {
            Format::Yaml => write_yaml(&plain_groups(groups)),
            Format::Json => write_json(&plain_groups(groups)),
            Format::Toml => write_toml(&plain_groups(groups)),
            Format::Env => Ok(env_lines(groups)),
        };
        rendered(format, given)
    }
}

/// A letter in upper case; any other character as it is.
pub open spec fn upper_char(c: char) -> char {
    if 'a' <= c <= 'z' {
        "ABCDEFGHIJKLMNOPQRSTUVWXYZ"@[c as int - 'a' as int]
    } else {
        c
    }
}

/// A text in upper case.
pub open spec fn upper(s: Seq<char>) -> Seq<char> {
    s.map_values(|c: char| upper_char(c))
}

fn uppercase(s: &str) -> (r: String)
    ensures
        r@ == upper(s@),
{
    let letters: &str = "ABCDEFGHIJKLMNOPQRSTUVWXYZ";
    proof {
        reveal_strlit("ABCDEFGHIJKLMNOPQRSTUVWXYZ");
    }
    let n: usize = s.unicode_len();
    let mut out: String = String::new();
    let mut i: usize = 0;
    while i < n
        invariant
            i <= n == s@.len(),
            letters@ == "ABCDEFGHIJKLMNOPQRSTUVWXYZ"@,
            letters@.len() == 26,
            out@ == upper(s@.take(i as int)),
        decreases n - i,
    {
        let c: char = s.get_char(i);
        let ghost before = out@;
        if 'a' <= c && c <= 'z' {
            let k: usize = (c as u32 - 'a' as u32) as usize;
            out.append(letters.substring_char(k, k + 1));
        } else {
            out.append(s.substring_char(i, i + 1));
        }
        assert(out@ =~= before.push(upper_char(c)));
        assert(upper(s@.take(i + 1)) =~= before.push(upper_char(c)));
        i = i + 1;
    }
    assert(s@.take(n as int) =~= s@);
    out
}

/// The text of a value in a line for the environment: a text as it is, a secret as stars, anything else
/// as in JSON.
pub open spec fn env_value(v: ValueView) -> Seq<char> {
    match v {
        ValueView::String(s) => s,
        ValueView::Secret(_) => "***"@,
        _ => plain_text(v),
    }
}

/// The line of an item.
pub open spec fn env_line(group: Seq<char>, key: Seq<char>, v: ValueView) -> Seq<char> {
    upper(group) + "__"@ + upper(key) + "="@ + env_value(v) + "\n"@
}

/// The lines of the first `n` items of a group.
pub open spec fn env_group(group: Seq<char>, rows: Seq<(Seq<char>, ValueView)>, n: nat) -> Seq<char>
    decreases n,
{
    if n == 0 {
        Seq::empty()
    } else {
        env_group(group, rows, (n - 1) as nat) + env_line(group, rows[n - 1].0, rows[n - 1].1)
    }
}

/// The lines of the first `n` groups.
pub open spec fn env_groups(rows: Seq<(Seq<char>, Map<Seq<char>, ValueView>)>, n: nat) -> Seq<char>
    decreases n,
{
    if n == 0 {
        Seq::empty()
    } else {
        let items = listing(rows[n - 1].1);
        env_groups(rows, (n - 1) as nat) + env_group(rows[n - 1].0, items, items.len())
    }
}

/// The lines of a configuration, in the order of groups and keys.
pub open spec fn env_text(m: SnapView) -> Seq<char> {
    env_groups(listing(m), listing(m).len())
}

fn item_line(group: &str, key: &str, v: &Value) -> (r: String)
    ensures
        r@ == env_line(group@, key@, v@),
{
    let mut s: String = uppercase(group);
    s.append("__");
    s.append(uppercase(key).as_str());
    s.append("=");
    match v {
        Value::String(t) => s.append(t.as_str()),
        Value::Secret(_) => s.append("***"),
        _ => s.append(plain_value(v).as_str()),
    }
    s.append("\n");
    s
}

fn group_lines(group: &str, m: &OrdMap<Value>) -> (r: String)
    ensures
        r@ == env_group(group@, listing(m@), listing(m@).len()),
{
    let n: usize = m.len();
    let mut out: String = String::new();
    let mut i: usize = 0;
    while i < n
        invariant
            i <= n == listing(m@).len(),
            out@ == env_group(group@, listing(m@), i as nat),
        decreases n - i,
    {
        out.append(item_line(group, m.key_at(i).as_str(), m.value_at(i)).as_str());
        i = i + 1;
    }
    out
}

/// The lines of a configuration.
fn env_lines(m: &SnapshotMap) -> (r: String)
    ensures
        r@ == env_text(m@),
{
    let n: usize = m.len();
    let mut out: String = String::new();
    let mut i: usize = 0;
    while i < n
        invariant
            i <= n == listing(m@).len(),
            out@ == env_groups(listing(m@), i as nat),
        decreases n - i,
    {
        out.append(group_lines(m.key_at(i).as_str(), m.value_at(i)).as_str());
        i = i + 1;
    }
    out
}

/// A value with its secret in the clear; stars where it cannot be read.
pub open spec fn revealed(keys: Seq<Seq<u8>>, v: ValueView) -> ValueView {
    match v {
        ValueView::Secret(c) => if nonce_fits(c.edek_nonce) && nonce_fits(c.nonce) {
            match decrypted(keys, c) {
                Ok(p) => ValueView::String(lossy_text(p)),
                Err(_) => ValueView::String("***"@),
            }
        } else {
            ValueView::String("***"@)
        },
        _ => v,
    }
}

/// Secrets are put in the clear.
pub(crate) struct Reveal<'a> {
    pub(crate) cipher: &'a Cipher,
}

impl<'a> Recast<Value, Value> for Reveal<'a> {
    open spec fn recast_of(&self, v: ValueView) -> ValueView {
        revealed(self.cipher@, v)
    }

    fn recast(&self, v: &Value) -> (u: Value) {
        match v {
            Value::Secret(c) => match self.cipher.try_decrypt_secret(c) {
                Some(Ok(p)) => Value::String(text_lossy(p.as_slice())),
                _ => Value::String("***".to_owned()),
            },
            _ => v.dup(),
        }
    }
}

impl<'a> Recast<OrdMap<Value>, OrdMap<Value>> for Reveal<'a> {
    open spec fn recast_of(&self, v: Map<Seq<char>, ValueView>) -> Map<Seq<char>, ValueView> {
        v.map_values(|x: ValueView| revealed(self.cipher@, x))
    }

    fn recast(&self, v: &OrdMap<Value>) -> (u: OrdMap<Value>) {
        let u: OrdMap<Value> = v.map_values(self);
        assert(u@ =~= v@.map_values(|x: ValueView| revealed(self.cipher@, x)));
        u
    }
}

/// A configuration with its secrets in the clear; stars for those that cannot be read.
pub fn reveal_secrets(cipher: &Cipher, groups: &SnapshotMap) -> (r: SnapshotMap)
    ensures
        r@ == groups@.map_values(
            |m: Map<Seq<char>, ValueView>|
                m.map_values(|v: ValueView| revealed(cipher@, v)),
        ),
{
    let f: Reveal = Reveal { cipher };
    let r: SnapshotMap = groups.map_values(&f);
    assert(r@ =~= groups@.map_values(
        |m: Map<Seq<char>, ValueView>| m.map_values(|v: ValueView| revealed(cipher@, v)),
    ));
    r
}

/// No ciphertext is rendered: whatever a secret holds, it is rendered as stars.
pub proof fn law_rendering_hides_secrets(c: CiphertextView)
    ensures
        plain_text(ValueView::Secret(c)) == json_literal("***"@),
        env_value(ValueView::Secret(c)) == "***"@,
{
}

/// Each format has one name, and what names no format is refused.
pub proof fn law_formats_have_one_name(a: Seq<char>, b: Seq<char>)
    ensures
        format_named(a) is Some && format_named(a) == format_named(b) ==> a == b,
        format_named("yaml"@) == Some(Format::Yaml),
        format_named("toml"@) == Some(Format::Toml),
        format_named("json"@) == Some(Format::Json),
        format_named("env"@) == Some(Format::Env),
{
    reveal_strlit("yaml");
    reveal_strlit("toml");
    reveal_strlit("json");
    reveal_strlit("env");
    assert("yaml"@[0] == 'y' && "toml"@[0] == 't' && "json"@[0] == 'j' && "env"@[0] == 'e');
}

/// A configuration is written by the writer of the format that is asked for; only that writer can refuse it, and
/// lines for the environment are never refused.
pub proof fn law_formats_have_their_writer(m: SnapView, format: Format)
    ensures
        outcome(Format::Yaml, written(Format::Yaml, m)) is Ok <==> yaml_text(plain_tree(m)) is Ok,
        outcome(Format::Toml, written(Format::Toml, m)) is Ok <==> toml_text(plain_tree(m)) is Ok,
        outcome(Format::Json, written(Format::Json, m)) is Ok <==> json_text(plain_tree(m)) is Ok,
        outcome(Format::Env, written(Format::Env, m)) == Ok::<Seq<char>, ErrorView>(env_text(m)),
        outcome(format, written(format, m)) matches Ok(t) ==> match format {
            Format::Yaml => yaml_text(plain_tree(m)) == Ok::<Seq<char>, Seq<char>>(t),
            Format::Toml => toml_text(plain_tree(m)) == Ok::<Seq<char>, Seq<char>>(t),
            Format::Json => json_text(plain_tree(m)) == Ok::<Seq<char>, Seq<char>>(t),
            Format::Env => t == env_text(m),
        },
{
}

} // verus!
