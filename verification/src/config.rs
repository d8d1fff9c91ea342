//! The configuration: a JSON document read from the configuration file, and
//! the lookups and updates the program makes on it.
use vstd::prelude::*;
use crate::logic::{resolve_path, spec_resolve_path};
use crate::text::{remove_quotes, without_quotes};
use serde_json::{Number, Value};

verus! {

/// A JSON number: a non-negative integer, a negative integer, or a float
/// kept in its textual form.
#[derive(Debug, PartialEq)]
pub enum JsonNumber {
    PosInt(u64),
    NegInt(i64),
    Float(String),
}

/// A JSON value, as serde_json reads and writes it.
#[derive(Debug, PartialEq)]
pub enum JsonValue {
    Null,
    Bool(bool),
    Number(JsonNumber),
    String(String),
    Array(Vec<JsonValue>),
    Object(Vec<(String, JsonValue)>),
}

/// A JSON number as a mathematical value.
pub enum NumberView {
    PosInt(u64),
    NegInt(i64),
    Float(Seq<char>),
}

/// A JSON value as a mathematical value; an object is the sequence of its
/// members.
pub enum JsonView {
    Null,
    Bool(bool),
    Number(NumberView),
    Str(Seq<char>),
    Array(Seq<JsonView>),
    Object(Seq<(Seq<char>, JsonView)>),
}

impl JsonValue {
    pub open spec fn view_json(self) -> JsonView
        decreases self,
    {
        match self {
            JsonValue::Null => JsonView::Null,
            JsonValue::Bool(b) => JsonView::Bool(b),
            JsonValue::Number(n) => JsonView::Number(
                match n {
                    JsonNumber::PosInt(u) => NumberView::PosInt(u),
                    JsonNumber::NegInt(i) => NumberView::NegInt(i),
                    JsonNumber::Float(s) => NumberView::Float(s@),
                },
            ),
            JsonValue::String(s) => JsonView::Str(s@),
            JsonValue::Array(v) => JsonView::Array(
                Seq::new(
                    v@.len(),
                    |i: int|
                        if 0 <= i < v@.len() {
                            v@[i].view_json()
                        } else {
                            JsonView::Null
                        },
                ),
            ),
            JsonValue::Object(e) => JsonView::Object(members_view(e@)),
        }
    }
}

/// The members of an object, as mathematical values.
pub open spec fn members_view(e: Seq<(String, JsonValue)>) -> Seq<(Seq<char>, JsonView)>
    decreases e,
{
    Seq::new(
        e.len(),
        |i: int|
            if 0 <= i < e.len() {
                (e[i].0@, e[i].1.view_json())
            } else {
                (Seq::empty(), JsonView::Null)
            },
    )
}

impl View for JsonValue {
    type V = JsonView;

    open spec fn view(&self) -> JsonView {
        self.view_json()
    }
}

/// A copy of `v`.
pub fn copy_json(v: &JsonValue) -> (r: JsonValue)
    ensures
        r@ == v@,
    decreases v,
{
    match v {
        JsonValue::Null => JsonValue::Null,
        JsonValue::Bool(b) => JsonValue::Bool(*b),
        JsonValue::Number(n) => JsonValue::Number(
            match n {
                JsonNumber::PosInt(u) => JsonNumber::PosInt(*u),
                JsonNumber::NegInt(i) => JsonNumber::NegInt(*i),
                JsonNumber::Float(s) => JsonNumber::Float(s.clone()),
            },
        ),
        JsonValue::String(s) => JsonValue::String(s.clone()),
        JsonValue::Array(items) => {
            let mut out: Vec<JsonValue> = Vec::new();
            let mut i: usize = 0;
            while i < items.len()
                invariant
                    *v == JsonValue::Array(*items),
                    i <= items@.len(),
                    out@.len() == i,
                    forall|j: int| 0 <= j < i ==> (#[trigger] out@[j])@ == items@[j]@,
                decreases items@.len() - i,
            {
                proof {
                    vstd::std_specs::vec::axiom_vec_index_decreases(*items, i as int);
                    assert(decreases_to!(*v => v->Array_0));
                }
                out.push(copy_json(&items[i]));
                i = i + 1;
            }
            let r = JsonValue::Array(out);
            assert(r@ == v@) by {
                assert(r@->Array_0 =~= v@->Array_0);
            }
            r
        },
        JsonValue::Object(members) => {
            let mut out: Vec<(String, JsonValue)> = Vec::new();
            let mut i: usize = 0;
            while i < members.len()
                invariant
                    *v == JsonValue::Object(*members),
                    i <= members@.len(),
                    out@.len() == i,
                    forall|j: int| 0 <= j < i ==> (#[trigger] out@[j]).0@ == members@[j].0@ && out@[j].1@ == members@[j].1@,
                decreases members@.len() - i,
            {
                proof {
                    vstd::std_specs::vec::axiom_vec_index_decreases(*members, i as int);
                    assert(decreases_to!(*v => v->Object_0));
                    assert(decreases_to!(members@[i as int] => members@[i as int].1));
                }
                let value = copy_json(&members[i].1);
                out.push((members[i].0.clone(), value));
                i = i + 1;
            }
            assert(members_view(out@) =~= members_view(members@));
            JsonValue::Object(out)
        },
    }
}

/// A copy of the whole configuration.
pub fn get_config(config: &JsonValue) -> (r: JsonValue)
    ensures
        r@ == config@,
{
    copy_json(config)
}

/// Index of the first member named `key`, from `start` on.
pub open spec fn key_index_from(members: Seq<(Seq<char>, JsonView)>, key: Seq<char>, start: int) -> Option<int>
    decreases members.len() - start,
{
    if start < 0 || start >= members.len() {
        None
    } else if members[start].0 == key {
        Some(start)
    } else {
        key_index_from(members, key, start + 1)
    }
}

/// Index of the first member named `key`.
pub open spec fn key_index(members: Seq<(Seq<char>, JsonView)>, key: Seq<char>) -> Option<int> {
    key_index_from(members, key, 0)
}

impl JsonView {
    /// The member `key` of an object; nothing for any other value.
    pub open spec fn get(self, key: Seq<char>) -> Option<JsonView> {
        match self {
            JsonView::Object(m) => match key_index(m, key) {
                Some(i) => Some(m[i].1),
                None => None,
            },
            _ => None,
        }
    }

    pub open spec fn as_str(self) -> Option<Seq<char>> {
        match self {
            JsonView::Str(s) => Some(s),
            _ => None,
        }
    }

    pub open spec fn as_bool(self) -> Option<bool> {
        match self {
            JsonView::Bool(b) => Some(b),
            _ => None,
        }
    }

    pub open spec fn as_u64(self) -> Option<u64> {
        match self {
            JsonView::Number(NumberView::PosInt(u)) => Some(u),
            _ => None,
        }
    }

    /// Null or an object: a value whose members can be assigned.
    pub open spec fn is_assignable(self) -> bool {
        self is Null || self is Object
    }

    /// The value after its member `key` is set to `value`; null becomes an
    /// object first.
    pub open spec fn set(self, key: Seq<char>, value: JsonView) -> JsonView {
        match self {
            JsonView::Null => JsonView::Object(seq![(key, value)]),
            JsonView::Object(m) => match key_index(m, key) {
                Some(i) => JsonView::Object(m.update(i, (key, value))),
                None => JsonView::Object(m.push((key, value))),
            },
            _ => self,
        }
    }

    /// The value without any member named `key`.
    pub open spec fn remove(self, key: Seq<char>) -> JsonView {
        match self {
            JsonView::Object(m) => JsonView::Object(members_without(m, key)),
            _ => self,
        }
    }
}

/// Position of the first member named `key`.
fn find_key(members: &Vec<(String, JsonValue)>, key: &String) -> (r: Option<usize>)
    ensures
        match r {
            Some(i) => i < members@.len() && key_index(members_view(members@), key@) == Some(i as int),
            None => key_index(members_view(members@), key@) is None,
        },
{
    let ghost m = members_view(members@);
    let mut i: usize = 0;
    while i < members.len()
        invariant
            i <= members@.len(),
            m == members_view(members@),
            key_index(m, key@) == key_index_from(m, key@, i as int),
        decreases members@.len() - i,
    {
        assert(m[i as int].0 == members@[i as int].0@);
        if members[i].0 == *key {
            return Some(i);
        }
        i = i + 1;
    }
    None
}

/// The member `key` of an object.
fn json_get<'a>(v: &'a JsonValue, key: &String) -> (r: Option<&'a JsonValue>)
    ensures
        match r {
            Some(x) => v@.get(key@) == Some(x@),
            None => v@.get(key@) is None,
        },
{
    match v {
        JsonValue::Object(members) => match find_key(members, key) {
            Some(i) => {
                assert(members_view(members@)[i as int].1 == members@[i as int].1@);
                Some(&members[i].1)
            },
            None => None,
        },
        _ => None,
    }
}

/// The string member `key` of a configuration, without its double quotes.
pub open spec fn spec_get_string(config: JsonView, key: Seq<char>) -> Option<Seq<char>> {
    match config.get(key) {
        Some(JsonView::Str(s)) => Some(without_quotes(s)),
        _ => None,
    }
}

/// The string setting `key`, with its double quotes removed; nothing when it
/// is missing or not a string.
pub fn get_config_string(config: &JsonValue, key: &str) -> (r: Option<String>)
    ensures
        match r {
            Some(s) => spec_get_string(config@, key@) == Some(s@),
            None => spec_get_string(config@, key@) is None,
        },
{
    match json_get(config, &key.to_owned()) {
        Some(JsonValue::String(s)) => Some(remove_quotes(s.as_str())),
        _ => None,
    }
}

/// The boolean setting `key`; nothing when it is missing or not a boolean.
pub fn get_config_bool(config: &JsonValue, key: &str) -> (r: Option<bool>)
    ensures
        r == match config@.get(key@) {
            Some(v) => v.as_bool(),
            None => None,
        },
{
    match json_get(config, &key.to_owned()) {
        Some(JsonValue::Bool(b)) => Some(*b),
        _ => None,
    }
}

/// The unsigned integer setting `key`; nothing when it is missing or not a
/// non-negative integer.
pub fn get_config_u64(config: &JsonValue, key: &str) -> (r: Option<u64>)
    ensures
        r == match config@.get(key@) {
            Some(v) => v.as_u64(),
            None => None,
        },
{
    match json_get(config, &key.to_owned()) {
        Some(JsonValue::Number(JsonNumber::PosInt(u))) => Some(*u),
        _ => None,
    }
}

/// The string setting `key` of the system configuration, without its double
/// quotes.
pub fn get_system_config_string(system_config: &JsonValue, key: &str) -> (r: Option<String>)
    ensures
        match r {
            Some(s) => spec_get_string(system_config@, key@) == Some(s@),
            None => spec_get_string(system_config@, key@) is None,
        },
{
    get_config_string(system_config, key)
}

/// The boolean setting `key` of the system configuration.
pub fn get_system_config_bool(system_config: &JsonValue, key: &str) -> (r: Option<bool>)
    ensures
        r == match system_config@.get(key@) {
            Some(v) => v.as_bool(),
            None => None,
        },
{
    get_config_bool(system_config, key)
}

#[verifier::external_type_specification]
#[verifier::external_body]
pub struct ExSerdeValue(serde_json::Value);

/// The document serde_json parses from `bytes` (`serde_json::from_slice`
/// into a `serde_json::Value`), as this crate models JSON; nothing when the
/// bytes are not one JSON document. It depends on the bytes alone.
pub uninterp spec fn json_parse(bytes: Seq<u8>) -> Option<JsonView>;

/// The bytes `serde_json::to_vec_pretty` writes for `value` once it is a
/// `serde_json::Value`. They depend on the value alone.
pub uninterp spec fn json_pretty(value: JsonView) -> Seq<u8>;

/// A serde_json value in this crate's model, member for member; a number
/// is kept as the integer it is, or else as its text.
#[verifier::external_body]
fn value_from_serde(v: &Value) -> JsonValue {
    match v {
        Value::Null => JsonValue::Null,
        Value::Bool(b) => JsonValue::Bool(*b),
        Value::Number(n) => JsonValue::Number(match (n.as_u64(), n.as_i64()) {
            (Some(u), _) => JsonNumber::PosInt(u),
            (None, Some(i)) => JsonNumber::NegInt(i),
            (None, None) => JsonNumber::Float(n.to_string()),
        }),
        Value::String(s) => JsonValue::String(s.clone()),
        Value::Array(items) => JsonValue::Array(items.iter().map(value_from_serde).collect()),
        Value::Object(m) => JsonValue::Object(m.iter().map(|(k, x)| (k.clone(), value_from_serde(x))).collect()),
    }
}

/// A value of this crate's model as a serde_json value, member for member;
/// a float's text is parsed back into serde_json's number.
#[verifier::external_body]
fn value_to_serde(v: &JsonValue) -> Value {
    match v {
        JsonValue::Null => Value::Null,
        JsonValue::Bool(b) => Value::Bool(*b),
        JsonValue::Number(JsonNumber::PosInt(u)) => Value::from(*u),
        JsonValue::Number(JsonNumber::NegInt(i)) => Value::from(*i),
        JsonValue::Number(JsonNumber::Float(t)) => t.parse::<Number>().map_or(Value::Null, Value::Number),
        JsonValue::String(s) => Value::String(s.clone()),
        JsonValue::Array(items) => Value::Array(items.iter().map(value_to_serde).collect()),
        JsonValue::Object(m) => Value::Object(m.iter().map(|(k, x)| (k.clone(), value_to_serde(x))).collect()),
    }
}

/// Calls `serde_json::from_slice` into a `serde_json::Value` and hands the
/// document out in this crate's model, or serde_json's message. Claimed:
/// what comes back is `json_parse` of the bytes.
#[verifier::external_body]
fn parse_json(bytes: &[u8]) -> (r: Result<JsonValue, String>)
    ensures
        match r {
            Ok(v) => json_parse(bytes@) == Some(v@),
            Err(_) => json_parse(bytes@) is None,
        },
{
    match serde_json::from_slice::<serde_json::Value>(bytes) {
        Ok(v) => Ok(value_from_serde(&v)),
        Err(e) => Err(e.to_string()),
    }
}

/// Calls `serde_json::to_vec_pretty` on the document as a
/// `serde_json::Value`, which serde_json documents as failing only for a map
/// whose keys are not strings, so never here. Claimed: the bytes are
/// `json_pretty` of the document.
#[verifier::external_body]
fn pretty_json(value: &JsonValue) -> (r: Vec<u8>)
    ensures
        r@ == json_pretty(value@),
{
    serde_json::to_vec_pretty(&value_to_serde(value)).unwrap_or_default()
}

/// The configuration that a configuration file gives: the document its
/// bytes hold, or an empty object when it was missing or did not parse.
pub open spec fn spec_config_from_file(contents: Option<Seq<u8>>) -> JsonView {
    match contents {
        Some(bytes) => match json_parse(bytes) {
            Some(v) => v,
            None => JsonView::Object(Seq::empty()),
        },
        None => JsonView::Object(Seq::empty()),
    }
}

/// Reads a configuration from the bytes of its file, `None` when the file
/// could not be read: the configuration (see `spec_config_from_file`), and
/// serde_json's message when the file was read but did not parse.
pub fn config_from_file(contents: Option<Vec<u8>>) -> (r: (JsonValue, Option<String>))
    ensures
        r.0@ == spec_config_from_file(
            match contents {
                Some(b) => Some(b@),
                None => None,
            },
        ),
        r.1 is Some <==> (contents matches Some(b) && json_parse(b@) is None),
{
    match contents {
        Some(bytes) => match parse_json(bytes.as_slice()) {
            Ok(v) => (v, None),
            Err(e) => (empty_config(), Some(e)),
        },
        None => (empty_config(), None),
    }
}

/// An empty JSON object.
fn empty_config() -> (r: JsonValue)
    ensures
        r@ == JsonView::Object(Seq::empty()),
{
    let empty: Vec<(String, JsonValue)> = Vec::new();
    assert(members_view(empty@) =~= Seq::<(Seq<char>, JsonView)>::empty());
    JsonValue::Object(empty)
}

/// The bytes written to the configuration file for `config`: the document,
/// pretty-printed by serde_json.
pub fn config_file_contents(config: &JsonValue) -> (r: Vec<u8>)
    ensures
        r@ == json_pretty(config@),
{
    pretty_json(config)
}

/// Name of the system setting that says where the configuration file is.
pub open spec fn config_path_key() -> Seq<char> {
    seq!['c', 'o', 'n', 'f', 'i', 'g', '-', 'p', 'a', 't', 'h']
}

/// File name of the configuration when the system configuration names none.
pub open spec fn default_config_file() -> Seq<char> {
    "RoExtract-config.json"@
}

/// Where the configuration file is: the system setting `config-path` with
/// `%Temp%` and `~` resolved for `username`, or the default file name.
pub open spec fn spec_config_file(system_config: JsonView, username: Seq<char>) -> Seq<char> {
    match spec_get_string(system_config, config_path_key()) {
        Some(path) => spec_resolve_path(path, username),
        None => default_config_file(),
    }
}

/// Where the configuration file is, by the system configuration.
pub fn detect_config_file(system_config: &JsonValue, username: &str) -> (r: String)
    ensures
        r@ == spec_config_file(system_config@, username@),
{
    proof {
        reveal_strlit("config-path");
        assert("config-path"@ =~= config_path_key());
    }
    match get_system_config_string(system_config, "config-path") {
        Some(path) => resolve_path(path.as_str(), username),
        None => "RoExtract-config.json".to_owned(),
    }
}

/// `v` with its member `key` set to `value`; null becomes an object first.
fn object_set(v: JsonValue, key: String, value: JsonValue) -> (r: JsonValue)
    requires
        v@.is_assignable(),
    ensures
        r@ == v@.set(key@, value@),
{
    let ghost key_view = key@;
    let ghost value_view = value@;
    match v {
        JsonValue::Null => {
            let mut m: Vec<(String, JsonValue)> = Vec::new();
            m.push((key, value));
            assert(members_view(m@) =~= seq![(key_view, value_view)]);
            JsonValue::Object(m)
        },
        JsonValue::Object(m) => {
            let mut m = m;
            let ghost before = members_view(m@);
            match find_key(&m, &key) {
                Some(i) => {
                    m.set(i, (key, value));
                    assert(members_view(m@) =~= before.update(i as int, (key_view, value_view)));
                },
                None => {
                    m.push((key, value));
                    assert(members_view(m@) =~= before.push((key_view, value_view)));
                },
            }
            JsonValue::Object(m)
        },
        other => other,
    }
}

/// Members other than `key`.
pub open spec fn members_without(m: Seq<(Seq<char>, JsonView)>, key: Seq<char>) -> Seq<(Seq<char>, JsonView)> {
    m.filter(|p: (Seq<char>, JsonView)| p.0 != key)
}

proof fn lemma_members_without_push(m: Seq<(Seq<char>, JsonView)>, p: (Seq<char>, JsonView), key: Seq<char>)
    ensures
        members_without(m.push(p), key) == if p.0 != key {
            members_without(m, key).push(p)
        } else {
            members_without(m, key)
        },
{
    reveal_with_fuel(Seq::<_>::filter, 1);
    assert(m.push(p).drop_last() =~= m);
}

/// `v` without its members named `key`.
fn object_remove(v: JsonValue, key: &String) -> (r: JsonValue)
    ensures
        r@ == v@.remove(key@),
{
    match v {
        JsonValue::Object(m) => {
            let ghost all = members_view(m@);
            let mut rest = m;
            let mut kept: Vec<(String, JsonValue)> = Vec::new();
            let ghost mut done: int = 0;
            proof {
                reveal_with_fuel(Seq::<_>::filter, 1);
            }
            assert(members_view(rest@) =~= all.skip(0));
            assert(members_view(kept@) =~= members_without(all.take(0), key@));
            while rest.len() > 0
                invariant
                    0 <= done <= all.len(),
                    members_view(rest@) == all.skip(done),
                    members_view(kept@) == members_without(all.take(done), key@),
                decreases rest@.len(),
            {
                let ghost before_rest = rest@;
                let ghost before_kept = kept@;
                assert(members_view(before_rest).len() == before_rest.len());
                assert(all.skip(done).len() == all.len() - done);
                assert(done < all.len());
                let entry = rest.remove(0);
                let ghost p = (entry.0@, entry.1@);
                assert(members_view(before_rest)[0] == p);
                assert(all.skip(done)[0] == all[done]);
                assert(all[done] == p);
                assert(members_view(rest@) =~= members_view(before_rest).drop_first());
                assert(all.skip(done).drop_first() =~= all.skip(done + 1));
                assert(members_view(rest@) =~= all.skip(done + 1));
                assert(all.take(done + 1) =~= all.take(done).push(p));
                proof {
                    lemma_members_without_push(all.take(done), p, key@);
                }
                if entry.0 != *key {
                    kept.push(entry);
                    assert(members_view(kept@) =~= members_view(before_kept).push(p));
                }
                proof {
                    done = done + 1;
                }
            }
            assert(all.take(done) =~= all);
            JsonValue::Object(kept)
        },
        other => other,
    }
}

/// Set the setting `key` to `value`. The configuration must be an object
/// (or null, which becomes one): assigning a member of any other JSON value fails.
pub fn set_config_value(config: &mut JsonValue, key: &str, value: JsonValue)
    requires
        old(config)@.is_assignable(),
    ensures
        final(config)@ == old(config)@.set(key@, value@),
{
    let mut current = JsonValue::Null;
    std::mem::swap(&mut current, config);
    *config = object_set(current, key.to_owned(), value);
}

/// Remove the setting `key`.
pub fn remove_config_value(config: &mut JsonValue, key: &str)
    ensures
        final(config)@ == old(config)@.remove(key@),
{
    let mut current = JsonValue::Null;
    std::mem::swap(&mut current, config);
    *config = object_remove(current, &key.to_owned());
}

/// `key_index_from` finds the first member named `key` from `start` on.
pub proof fn lemma_key_index_from(m: Seq<(Seq<char>, JsonView)>, key: Seq<char>, start: int)
    requires
        0 <= start,
    ensures
        match key_index_from(m, key, start) {
            Some(i) => start <= i < m.len() && m[i].0 == key && forall|j: int| start <= j < i ==> m[j].0 != key,
            None => forall|j: int| start <= j < m.len() ==> m[j].0 != key,
        },
    decreases m.len() - start,
{
    if start < m.len() && m[start].0 != key {
        lemma_key_index_from(m, key, start + 1);
    }
}

/// A sequence of members in which `i` is the first index named `key` has
/// `key_index` equal to `i`.
proof fn lemma_key_index_is(m: Seq<(Seq<char>, JsonView)>, key: Seq<char>, i: int)
    requires
        0 <= i < m.len(),
        m[i].0 == key,
        forall|j: int| 0 <= j < i ==> m[j].0 != key,
    ensures
        key_index(m, key) == Some(i),
{
    lemma_key_index_from(m, key, 0);
    match key_index(m, key) {
        Some(k) => {
            if k < i {
                assert(m[k].0 != key);
            }
        },
        None => {
            assert(m[i].0 != key);
        },
    }
}

/// After setting a member, getting it gives what was set.
pub proof fn lemma_get_after_set(v: JsonView, key: Seq<char>, value: JsonView)
    requires
        v.is_assignable(),
    ensures
        v.set(key, value).get(key) == Some(value),
{
    match v {
        JsonView::Null => {
            lemma_key_index_is(seq![(key, value)], key, 0);
        },
        JsonView::Object(m) => {
            lemma_key_index_from(m, key, 0);
            match key_index(m, key) {
                Some(i) => {
                    lemma_key_index_is(m.update(i, (key, value)), key, i);
                },
                None => {
                    lemma_key_index_is(m.push((key, value)), key, m.len() as int);
                },
            }
        },
        _ => {},
    }
}

/// Setting a member leaves the other members as they were.
pub proof fn lemma_get_other_after_set(v: JsonView, key: Seq<char>, value: JsonView, other: Seq<char>)
    requires
        v.is_assignable(),
        other != key,
    ensures
        v.set(key, value).get(other) == v.get(other),
{
    match v {
        JsonView::Null => {
            lemma_key_index_from(seq![(key, value)], other, 0);
        },
        JsonView::Object(m) => {
            lemma_key_index_from(m, key, 0);
            lemma_key_index_from(m, other, 0);
            let n = match key_index(m, key) {
                Some(i) => m.update(i, (key, value)),
                None => m.push((key, value)),
            };
            lemma_key_index_from(n, other, 0);
            match key_index(m, other) {
                Some(k) => {
                    assert(n[k] == m[k]);
                    lemma_key_index_is(n, other, k);
                },
                None => {
                    assert forall|j: int| 0 <= j < n.len() implies n[j].0 != other by {
                        if j < m.len() && n[j] != m[j] {
                        }
                    }
                    match key_index(n, other) {
                        Some(k) => {
                            assert(n[k].0 != other);
                        },
                        None => {},
                    }
                },
            }
        },
        _ => {},
    }
}

/// `v` with its member `key` replaced by null, and the member it held.
fn object_take(v: JsonValue, key: &String) -> (r: (JsonValue, JsonValue))
    requires
        v@.get(key@) is Some,
    ensures
        r.0@ == v@.set(key@, JsonView::Null),
        Some(r.1@) == v@.get(key@),
{
    match v {
        JsonValue::Object(m) => {
            let mut m = m;
            let ghost before = members_view(m@);
            match find_key(&m, key) {
                Some(i) => {
                    proof {
                        lemma_key_index_from(before, key@, 0);
                    }
                    let entry = m.remove(i);
                    assert(before[i as int].0 == key@);
                    m.insert(i, (entry.0, JsonValue::Null));
                    assert(members_view(m@) =~= before.update(i as int, (key@, JsonView::Null)));
                    (JsonValue::Object(m), entry.1)
                },
                None => {
                    (JsonValue::Object(m), JsonValue::Null)
                },
            }
        },
        other => (other, JsonValue::Null),
    }
}

/// Name of the configuration member that holds the aliases of assets.
pub open spec fn aliases_key() -> Seq<char> {
    seq!['a', 'l', 'i', 'a', 's', 'e', 's']
}

fn aliases_text() -> (r: String)
    ensures
        r@ == aliases_key(),
{
    proof {
        reveal_strlit("aliases");
    }
    "aliases".to_owned()
}

/// The alias member of `asset`, if the configuration has aliases and one for it.
pub open spec fn alias_member(config: JsonView, asset: Seq<char>) -> Option<JsonView> {
    match config.get(aliases_key()) {
        Some(aliases) => aliases.get(asset),
        None => None,
    }
}

/// The name shown for `asset`: its alias without double quotes, or the
/// asset's own name when it has none.
pub open spec fn spec_asset_alias(config: JsonView, asset: Seq<char>) -> Seq<char> {
    match alias_member(config, asset) {
        Some(JsonView::Str(s)) => without_quotes(s),
        _ => asset,
    }
}

/// The alias of `asset`, if any, is a string (reading another value fails).
pub open spec fn alias_readable(config: JsonView, asset: Seq<char>) -> bool {
    match alias_member(config, asset) {
        Some(v) => v is Str,
        None => true,
    }
}

/// The name shown for `asset`: its alias with double quotes removed, or the
/// asset's name when it has none.
pub fn get_asset_alias(config: &JsonValue, asset: &str) -> (r: String)
    requires
        alias_readable(config@, asset@),
    ensures
        r@ == spec_asset_alias(config@, asset@),
{
    if let Some(aliases) = json_get(config, &aliases_text()) {
        if let Some(value) = json_get(aliases, &asset.to_owned()) {
            match value {
                JsonValue::String(s) => {
                    return remove_quotes(s.as_str());
                },
                _ => {
                    assert(false);
                },
            }
        }
    }
    asset.to_owned()
}

/// The configuration after the alias of `asset` is set to `value` with its
/// double quotes removed; the aliases member is created when missing.
pub open spec fn spec_set_asset_alias(config: JsonView, asset: Seq<char>, value: Seq<char>) -> JsonView {
    let with_aliases = if config.get(aliases_key()) is None {
        config.set(aliases_key(), JsonView::Object(Seq::empty()))
    } else {
        config
    };
    let aliases = with_aliases.get(aliases_key()).unwrap();
    with_aliases.set(aliases_key(), aliases.set(asset, JsonView::Str(without_quotes(value))))
}

/// Assigning an alias works: the configuration is an object or null, and so
/// are its aliases when it has them.
pub open spec fn alias_assignable(config: JsonView) -> bool {
    &&& config.is_assignable()
    &&& config.get(aliases_key()) matches Some(a) ==> a.is_assignable()
}

/// Set the alias of `asset` to `value` with its double quotes removed.
pub fn set_asset_alias(config: &mut JsonValue, asset: &str, value: &str)
    requires
        alias_assignable(old(config)@),
    ensures
        final(config)@ == spec_set_asset_alias(old(config)@, asset@, value@),
{
    let key = aliases_text();
    let mut current = JsonValue::Null;
    std::mem::swap(&mut current, config);
    let ghost start = current@;
    if json_get(&current, &key).is_none() {
        let empty: Vec<(String, JsonValue)> = Vec::new();
        let empty_object = JsonValue::Object(empty);
        assert(members_view(empty@) =~= Seq::<(Seq<char>, JsonView)>::empty());
        current = object_set(current, key.clone(), empty_object);
        proof {
            lemma_get_after_set(start, aliases_key(), JsonView::Object(Seq::empty()));
        }
    }
    let ghost with_aliases = current@;
    assert(with_aliases.is_assignable());
    let (rest, aliases) = object_take(current, &key);
    let new_alias = JsonValue::String(remove_quotes(value));
    let new_aliases = object_set(aliases, asset.to_owned(), new_alias);
    proof {
        lemma_set_twice(with_aliases, aliases_key(), JsonView::Null, new_aliases@);
    }
    *config = object_set(rest, key, new_aliases);
}

/// Setting an alias keeps the configuration ready for another one.
pub proof fn lemma_set_alias_keeps_assignable(config: JsonView, asset: Seq<char>, value: Seq<char>)
    requires
        alias_assignable(config),
    ensures
        alias_assignable(spec_set_asset_alias(config, asset, value)),
{
    let with_aliases = if config.get(aliases_key()) is None {
        config.set(aliases_key(), JsonView::Object(Seq::empty()))
    } else {
        config
    };
    if config.get(aliases_key()) is None {
        lemma_get_after_set(config, aliases_key(), JsonView::Object(Seq::empty()));
    }
    let aliases = with_aliases.get(aliases_key()).unwrap();
    let new_aliases = aliases.set(asset, JsonView::Str(without_quotes(value)));
    lemma_get_after_set(with_aliases, aliases_key(), new_aliases);
}

/// Whether a setting can be assigned in `config`: it is an object, or null.
pub fn config_assignable(config: &JsonValue) -> (r: bool)
    ensures
        r == config@.is_assignable(),
{
    match config {
        JsonValue::Null => true,
        JsonValue::Object(_) => true,
        _ => false,
    }
}

/// Whether the alias of `asset` can be read: it is missing or a string.
pub fn alias_is_readable(config: &JsonValue, asset: &str) -> (r: bool)
    ensures
        r == alias_readable(config@, asset@),
{
    match json_get(config, &aliases_text()) {
        Some(aliases) => match json_get(aliases, &asset.to_owned()) {
            Some(JsonValue::String(_)) => true,
            Some(_) => false,
            None => true,
        },
        None => true,
    }
}

/// Whether an alias can be set in `config` (see `alias_assignable`).
pub fn alias_can_be_set(config: &JsonValue) -> (r: bool)
    ensures
        r == alias_assignable(config@),
{
    if !config_assignable(config) {
        return false;
    }
    match json_get(config, &aliases_text()) {
        Some(aliases) => config_assignable(aliases),
        None => true,
    }
}

/// Setting a member twice keeps the second value.
proof fn lemma_set_twice(v: JsonView, key: Seq<char>, first: JsonView, second: JsonView)
    requires
        v.is_assignable(),
        v.get(key) is Some,
    ensures
        v.set(key, first).set(key, second) == v.set(key, second),
{
    match v {
        JsonView::Object(m) => {
            lemma_key_index_from(m, key, 0);
            let i = key_index(m, key).unwrap();
            let n = m.update(i, (key, first));
            lemma_key_index_is(n, key, i);
            assert(n.update(i, (key, second)) =~= m.update(i, (key, second)));
        },
        _ => {},
    }
}

/// After a setting is removed, reading it finds nothing.
pub proof fn law_get_after_remove(v: JsonView, key: Seq<char>)
    ensures
        v.remove(key).get(key) is None,
{
    match v {
        JsonView::Object(m) => {
            let n = members_without(m, key);
            lemma_key_index_from(n, key, 0);
            if let Some(i) = key_index(n, key) {
                assert(n.contains(n[i]));
                assert(false);
            }
        },
        _ => {},
    }
}

/// The value of the first member named `key`.
pub open spec fn member(m: Seq<(Seq<char>, JsonView)>, key: Seq<char>) -> Option<JsonView> {
    match key_index(m, key) {
        Some(i) => Some(m[i].1),
        None => None,
    }
}

/// The first member named `key` of a sequence with one more member.
proof fn lemma_member_push(m: Seq<(Seq<char>, JsonView)>, p: (Seq<char>, JsonView), key: Seq<char>)
    ensures
        member(m.push(p), key) == match member(m, key) {
            Some(v) => Some(v),
            None => if p.0 == key {
                Some(p.1)
            } else {
                None
            },
        },
{
    let n = m.push(p);
    lemma_key_index_from(m, key, 0);
    match key_index(m, key) {
        Some(i) => {
            assert forall|j: int| 0 <= j < i implies n[j].0 != key by {
                assert(n[j] == m[j]);
            }
            assert(n[i] == m[i]);
            lemma_key_index_is(n, key, i);
        },
        None => {
            if p.0 == key {
                assert forall|j: int| 0 <= j < m.len() implies n[j].0 != key by {
                    assert(n[j] == m[j]);
                }
                lemma_key_index_is(n, key, m.len() as int);
            } else {
                lemma_key_index_from(n, key, 0);
                if let Some(k) = key_index(n, key) {
                    if k < m.len() {
                        assert(n[k] == m[k]);
                    }
                }
            }
        },
    }
}

proof fn lemma_member_without(m: Seq<(Seq<char>, JsonView)>, key: Seq<char>, other: Seq<char>)
    requires
        other != key,
    ensures
        member(members_without(m, key), other) == member(m, other),
    decreases m.len(),
{
    if m.len() == 0 {
        reveal_with_fuel(Seq::<_>::filter, 1);
        assert(members_without(m, key) =~= m);
    } else {
        let init = m.drop_last();
        let p = m.last();
        assert(init.push(p) =~= m);
        lemma_member_without(init, key, other);
        lemma_members_without_push(init, p, key);
        lemma_member_push(init, p, other);
        if p.0 != key {
            lemma_member_push(members_without(init, key), p, other);
        }
    }
}

/// Removing a setting leaves every other setting as it was.
pub proof fn law_remove_keeps_others(v: JsonView, key: Seq<char>, other: Seq<char>)
    requires
        other != key,
    ensures
        v.remove(key).get(other) == v.get(other),
{
    match v {
        JsonView::Object(m) => {
            lemma_member_without(m, key, other);
        },
        _ => {},
    }
}

/// A string setting reads back, without its double quotes, as it was set.
pub proof fn law_string_setting_round_trip(v: JsonView, key: Seq<char>, s: Seq<char>)
    requires
        v.is_assignable(),
    ensures
        spec_get_string(v.set(key, JsonView::Str(s)), key) == Some(without_quotes(s)),
{
    lemma_get_after_set(v, key, JsonView::Str(s));
}

/// Removing double quotes twice removes nothing more.
pub proof fn lemma_without_quotes_idempotent(s: Seq<char>)
    ensures
        without_quotes(without_quotes(s)) == without_quotes(s),
    decreases s.len(),
{
    reveal_with_fuel(Seq::<_>::filter, 1);
    if s.len() > 0 {
        lemma_without_quotes_idempotent(s.drop_last());
        crate::text::lemma_filter_push(s.drop_last(), s.last());
        assert(s.drop_last().push(s.last()) =~= s);
        let w = without_quotes(s.drop_last());
        crate::text::lemma_filter_push(w, s.last());
    }
}

/// An alias reads back, without its double quotes, as it was set.
pub proof fn law_alias_round_trip(config: JsonView, asset: Seq<char>, value: Seq<char>)
    requires
        alias_assignable(config),
    ensures
        spec_asset_alias(spec_set_asset_alias(config, asset, value), asset) == without_quotes(value),
{
    let with_aliases = if config.get(aliases_key()) is None {
        config.set(aliases_key(), JsonView::Object(Seq::empty()))
    } else {
        config
    };
    if config.get(aliases_key()) is None {
        lemma_get_after_set(config, aliases_key(), JsonView::Object(Seq::empty()));
    }
    let aliases = with_aliases.get(aliases_key()).unwrap();
    assert(with_aliases.is_assignable());
    assert(aliases.is_assignable());
    let updated = aliases.set(asset, JsonView::Str(without_quotes(value)));
    lemma_get_after_set(with_aliases, aliases_key(), updated);
    lemma_get_after_set(aliases, asset, JsonView::Str(without_quotes(value)));
    lemma_without_quotes_idempotent(value);
}

/// Setting an alias leaves every other setting as it was.
pub proof fn law_alias_keeps_settings(config: JsonView, asset: Seq<char>, value: Seq<char>, key: Seq<char>)
    requires
        alias_assignable(config),
        key != aliases_key(),
    ensures
        spec_set_asset_alias(config, asset, value).get(key) == config.get(key),
{
    let with_aliases = if config.get(aliases_key()) is None {
        config.set(aliases_key(), JsonView::Object(Seq::empty()))
    } else {
        config
    };
    if config.get(aliases_key()) is None {
        lemma_get_other_after_set(config, aliases_key(), JsonView::Object(Seq::empty()), key);
    }
    assert(with_aliases.is_assignable());
    let aliases = with_aliases.get(aliases_key()).unwrap();
    let updated = aliases.set(asset, JsonView::Str(without_quotes(value)));
    lemma_get_other_after_set(with_aliases, aliases_key(), updated, key);
}

/// A write to the configuration, as `set_config_value`,
/// `remove_config_value` and `set_asset_alias` make it.
pub enum ConfigWrite {
    /// The setting named by the first field is set to the second.
    Assign(Seq<char>, JsonView),
    /// The setting is removed.
    Remove(Seq<char>),
    /// The alias of the asset named by the first field is set to the second.
    Alias(Seq<char>, Seq<char>),
}

/// The configuration after one write.
pub open spec fn apply_write(config: JsonView, write: ConfigWrite) -> JsonView {
    match write {
        ConfigWrite::Assign(key, value) => config.set(key, value),
        ConfigWrite::Remove(key) => config.remove(key),
        ConfigWrite::Alias(asset, value) => spec_set_asset_alias(config, asset, value),
    }
}

/// The configuration after the writes, in order.
pub open spec fn apply_writes(config: JsonView, writes: Seq<ConfigWrite>) -> JsonView
    decreases writes.len(),
{
    if writes.len() == 0 {
        config
    } else {
        apply_writes(apply_write(config, writes[0]), writes.drop_first())
    }
}

/// The write leaves the setting `key` alone: it sets or removes another
/// setting, or sets an alias while `key` is not the aliases member.
pub open spec fn leaves_setting(write: ConfigWrite, key: Seq<char>) -> bool {
    match write {
        ConfigWrite::Assign(k, _) => k != key,
        ConfigWrite::Remove(k) => k != key,
        ConfigWrite::Alias(_, _) => key != aliases_key(),
    }
}

/// The write leaves the alias of `asset` alone: it sets or removes a setting
/// other than the aliases member, or sets the alias of another asset.
pub open spec fn leaves_alias(write: ConfigWrite, asset: Seq<char>) -> bool {
    match write {
        ConfigWrite::Assign(k, _) => k != aliases_key(),
        ConfigWrite::Remove(k) => k != aliases_key(),
        ConfigWrite::Alias(a, _) => a != asset,
    }
}

/// Setting an alias changes nothing in a value whose members cannot be
/// assigned.
proof fn lemma_alias_on_unassignable(config: JsonView, asset: Seq<char>, value: Seq<char>)
    requires
        !config.is_assignable(),
    ensures
        spec_set_asset_alias(config, asset, value) == config,
{
}

/// A write that leaves the setting `key` alone keeps its value.
proof fn lemma_write_keeps_setting(config: JsonView, write: ConfigWrite, key: Seq<char>)
    requires
        leaves_setting(write, key),
    ensures
        apply_write(config, write).get(key) == config.get(key),
{
    match write {
        ConfigWrite::Assign(k, value) => {
            if config.is_assignable() {
                lemma_get_other_after_set(config, k, value, key);
            }
        },
        ConfigWrite::Remove(k) => {
            law_remove_keeps_others(config, k, key);
        },
        ConfigWrite::Alias(asset, value) => {
            if config.is_assignable() {
                let with_aliases = if config.get(aliases_key()) is None {
                    config.set(aliases_key(), JsonView::Object(Seq::empty()))
                } else {
                    config
                };
                if config.get(aliases_key()) is None {
                    lemma_get_other_after_set(config, aliases_key(), JsonView::Object(Seq::empty()), key);
                }
                assert(with_aliases.is_assignable());
                let aliases = with_aliases.get(aliases_key()).unwrap();
                let updated = aliases.set(asset, JsonView::Str(without_quotes(value)));
                lemma_get_other_after_set(with_aliases, aliases_key(), updated, key);
            } else {
                lemma_alias_on_unassignable(config, asset, value);
            }
        },
    }
}

/// A write that leaves the alias of `asset` alone keeps it.
proof fn lemma_write_keeps_alias(config: JsonView, write: ConfigWrite, asset: Seq<char>)
    requires
        leaves_alias(write, asset),
    ensures
        alias_member(apply_write(config, write), asset) == alias_member(config, asset),
{
    match write {
        ConfigWrite::Assign(k, value) => {
            if config.is_assignable() {
                lemma_get_other_after_set(config, k, value, aliases_key());
            }
        },
        ConfigWrite::Remove(k) => {
            law_remove_keeps_others(config, k, aliases_key());
        },
        ConfigWrite::Alias(other, value) => {
            if config.is_assignable() {
                let absent = config.get(aliases_key()) is None;
                let with_aliases = if absent {
                    config.set(aliases_key(), JsonView::Object(Seq::empty()))
                } else {
                    config
                };
                if absent {
                    lemma_get_after_set(config, aliases_key(), JsonView::Object(Seq::empty()));
                }
                assert(with_aliases.is_assignable());
                let aliases = with_aliases.get(aliases_key()).unwrap();
                let updated = aliases.set(other, JsonView::Str(without_quotes(value)));
                lemma_get_after_set(with_aliases, aliases_key(), updated);
                if aliases.is_assignable() {
                    lemma_get_other_after_set(aliases, other, JsonView::Str(without_quotes(value)), asset);
                }
                if absent {
                    assert(aliases == JsonView::Object(Seq::empty()));
                    lemma_key_index_from(Seq::<(Seq<char>, JsonView)>::empty(), asset, 0);
                }
            } else {
                lemma_alias_on_unassignable(config, other, value);
            }
        },
    }
}

/// A string setting reads back, without its double quotes, as it was set,
/// whatever writes to other settings follow.
pub proof fn law_setting_survives_writes(config: JsonView, key: Seq<char>, s: Seq<char>, writes: Seq<ConfigWrite>)
    requires
        config.is_assignable(),
        forall|i: int| 0 <= i < writes.len() ==> leaves_setting(#[trigger] writes[i], key),
    ensures
        spec_get_string(apply_writes(config.set(key, JsonView::Str(s)), writes), key) == Some(without_quotes(s)),
{
    lemma_setting_kept(config.set(key, JsonView::Str(s)), key, writes);
    law_string_setting_round_trip(config, key, s);
}

/// Writes that leave the setting `key` alone keep its value.
proof fn lemma_setting_kept(config: JsonView, key: Seq<char>, writes: Seq<ConfigWrite>)
    requires
        forall|i: int| 0 <= i < writes.len() ==> leaves_setting(#[trigger] writes[i], key),
    ensures
        apply_writes(config, writes).get(key) == config.get(key),
    decreases writes.len(),
{
    if writes.len() > 0 {
        lemma_write_keeps_setting(config, writes[0], key);
        let rest = writes.drop_first();
        assert forall|i: int| 0 <= i < rest.len() implies leaves_setting(#[trigger] rest[i], key) by {
            assert(rest[i] == writes[i + 1]);
        }
        lemma_setting_kept(apply_write(config, writes[0]), key, rest);
    }
}

/// Writes that leave the alias of `asset` alone keep it.
proof fn lemma_alias_kept(config: JsonView, asset: Seq<char>, writes: Seq<ConfigWrite>)
    requires
        forall|i: int| 0 <= i < writes.len() ==> leaves_alias(#[trigger] writes[i], asset),
    ensures
        alias_member(apply_writes(config, writes), asset) == alias_member(config, asset),
    decreases writes.len(),
{
    if writes.len() > 0 {
        lemma_write_keeps_alias(config, writes[0], asset);
        let rest = writes.drop_first();
        assert forall|i: int| 0 <= i < rest.len() implies leaves_alias(#[trigger] rest[i], asset) by {
            assert(rest[i] == writes[i + 1]);
        }
        lemma_alias_kept(apply_write(config, writes[0]), asset, rest);
    }
}

/// An alias reads back, without its double quotes, as it was set, whatever
/// writes to other settings and to other assets' aliases follow.
pub proof fn law_alias_survives_writes(config: JsonView, asset: Seq<char>, value: Seq<char>, writes: Seq<ConfigWrite>)
    requires
        alias_assignable(config),
        forall|i: int| 0 <= i < writes.len() ==> leaves_alias(#[trigger] writes[i], asset),
    ensures
        spec_asset_alias(apply_writes(spec_set_asset_alias(config, asset, value), writes), asset) == without_quotes(
            value,
        ),
{
    lemma_alias_kept(spec_set_asset_alias(config, asset, value), asset, writes);
    law_alias_round_trip(config, asset, value);
}

} // verus!
