//! The plugins installed in the dsh web profile, read from the profile's `package.json`.

use vstd::prelude::*;
use crate::reports::{failure_message, failure_text, Failure};
use crate::text::{chars_of, str_equal};

verus! {

broadcast use vstd::seq_lib::group_to_multiset_ensures;

/// A JSON value, as far as the profile manifest is read: numbers are not looked at.
pub enum Json {
    Null,
    Bool(bool),
    Number,
    Str(String),
    Array(Vec<Json>),
    Object(Vec<(String, Json)>),
}

/// A JSON value as `serde_json` parses it.
#[verifier::external_type_specification]
#[verifier::external_body]
pub struct ExJsonValue(serde_json::Value);

/// A JSON parse error of `serde_json`.
#[verifier::external_type_specification]
#[verifier::external_body]
pub struct ExJsonError(serde_json::Error);

/// A name for what parsing `text` as JSON with `serde_json` gives: the document, as a
/// `Json`, or nothing when the text is not JSON.
pub uninterp spec fn parsed_json(text: Seq<char>) -> Option<Json>;

/// Every object in `j`, however deeply nested, has distinct keys.
pub open spec fn json_keys_distinct(j: Json) -> bool
    decreases j,
{
    match j {
        Json::Object(entries) => keys_distinct(entries@) && forall|i: int|
            0 <= i < entries@.len() ==> json_keys_distinct(#[trigger] entries@[i].1),
        Json::Array(items) => forall|i: int|
            0 <= i < items@.len() ==> json_keys_distinct(#[trigger] items@[i]),
        _ => true,
    }
}

/// The `Json` for a `serde_json::Value`, variant for variant (numbers are not kept). Called
/// only from `parse_json`, whose contract covers the whole conversion; nothing is promised
/// of this function alone.
#[verifier::external_body]
fn json_of_value(v: serde_json::Value) -> Json {
    match v {
        serde_json::Value::Null => Json::Null,
        serde_json::Value::Bool(b) => Json::Bool(b),
        serde_json::Value::Number(_) => Json::Number,
        serde_json::Value::String(s) => Json::Str(s),
        serde_json::Value::Array(a) => Json::Array(a.into_iter().map(json_of_value).collect()),
        serde_json::Value::Object(m) => Json::Object(
            m.into_iter().map(|(k, v)| (k, json_of_value(v))).collect(),
        ),
    }
}

/// Parses `text` as JSON (`serde_json::from_str` into a `serde_json::Value`), converted to
/// `Json`. The contract names the document, which depends on the text alone: `serde_json`
/// parses deterministically and iterates an object's members in a fixed order. Its objects
/// are maps, so the keys of every object in the document are distinct (a repeated key keeps
/// its last value).
#[verifier::external_body]
fn parse_json(text: &str) -> (r: Result<Json, serde_json::Error>)
    ensures
        r is Ok <==> parsed_json(text@) is Some,
        r matches Ok(j) ==> parsed_json(text@) == Some(j) && json_keys_distinct(j),
{
    match serde_json::from_str::<serde_json::Value>(text) {
        Ok(v) => Ok(json_of_value(v)),
        Err(e) => Err(e),
    }
}

/// The text of a JSON parse error (its `Display`). Nothing is promised of the wording.
#[verifier::external_body]
fn json_error_text(e: &serde_json::Error) -> String {
    e.to_string()
}

/// The value of the first entry named `key`.
pub open spec fn entry_value(entries: Seq<(String, Json)>, key: Seq<char>) -> Option<Json>
    decreases entries.len(),
{
    if entries.len() == 0 {
        None
    } else if entries[0].0@ == key {
        Some(entries[0].1)
    } else {
        entry_value(entries.drop_first(), key)
    }
}

/// The member `key` of an object; nothing for other values.
pub open spec fn json_get(j: Json, key: Seq<char>) -> Option<Json> {
    match j {
        Json::Object(entries) => entry_value(entries@, key),
        _ => None,
    }
}

/// The strings among `items`, in order; other values are skipped.
pub open spec fn strings_in(items: Seq<Json>) -> Seq<Seq<char>>
    decreases items.len(),
{
    if items.len() == 0 {
        Seq::empty()
    } else {
        let rest = strings_in(items.drop_last());
        match items.last() {
            Json::Str(s) => rest.push(s@),
            _ => rest,
        }
    }
}

/// The bundle names listed at `/dsh/profile/bundles`; none when that is not an array.
pub open spec fn bundle_names(manifest: Json) -> Seq<Seq<char>> {
    match json_get(manifest, "dsh"@) {
        Some(d) => match json_get(d, "profile"@) {
            Some(p) => match json_get(p, "bundles"@) {
                Some(Json::Array(items)) => strings_in(items@),
                _ => Seq::empty(),
            },
            None => Seq::empty(),
        },
        None => Seq::empty(),
    }
}

/// `s` without its leading run of `c`.
pub open spec fn trim_leading(s: Seq<char>, c: char) -> Seq<char>
    decreases s.len(),
{
    if s.len() > 0 && s[0] == c {
        trim_leading(s.drop_first(), c)
    } else {
        s
    }
}

/// The version shown for a dependency: its version range without leading `^`, then without
/// leading `~`; empty when the range is not a string.
pub open spec fn shown_version(v: Json) -> Seq<char> {
    match v {
        Json::Str(s) => trim_leading(trim_leading(s@, '^'), '~'),
        _ => Seq::empty(),
    }
}

/// A plugin as the UI lists it: name, version, and whether it is part of a bundle.
pub type PluginRow = (Seq<char>, Seq<char>, bool);

/// The row for the dependency `entry`.
pub open spec fn dependency_row(entry: (String, Json), bundles: Seq<Seq<char>>) -> PluginRow {
    (entry.0@, shown_version(entry.1), bundles.contains(entry.0@))
}

/// The rows for the profile's `dependencies`, in the manifest's order; none when that is
/// not an object.
pub open spec fn dependency_rows(manifest: Json) -> Seq<PluginRow> {
    match json_get(manifest, "dependencies"@) {
        Some(Json::Object(deps)) => deps@.map_values(
            |e: (String, Json)| dependency_row(e, bundle_names(manifest)),
        ),
        _ => Seq::empty(),
    }
}

/// Lexicographic order of character sequences (that of their UTF-8 bytes, as `String`
/// compares).
pub open spec fn name_le(a: Seq<char>, b: Seq<char>) -> bool
    decreases a.len(),
{
    if a.len() == 0 {
        true
    } else if b.len() == 0 {
        false
    } else if (a[0] as u32) < (b[0] as u32) {
        true
    } else if (a[0] as u32) > (b[0] as u32) {
        false
    } else {
        name_le(a.drop_first(), b.drop_first())
    }
}

pub proof fn lemma_name_le_total(a: Seq<char>, b: Seq<char>)
    ensures
        name_le(a, b) || name_le(b, a),
    decreases a.len(),
{
    if a.len() > 0 && b.len() > 0 && a[0] == b[0] {
        lemma_name_le_total(a.drop_first(), b.drop_first());
    } else if a.len() > 0 && b.len() > 0 {
        vstd::utf8::char_u32_cast(a[0], a[0] as u32);
        vstd::utf8::char_u32_cast(b[0], b[0] as u32);
    }
}

pub proof fn lemma_name_le_transitive(a: Seq<char>, b: Seq<char>, c: Seq<char>)
    requires
        name_le(a, b),
        name_le(b, c),
    ensures
        name_le(a, c),
    decreases a.len(),
{
    if a.len() > 0 && b.len() > 0 && c.len() > 0 && (a[0] as u32) == (b[0] as u32) && (b[0] as u32)
        == (c[0] as u32) {
        lemma_name_le_transitive(a.drop_first(), b.drop_first(), c.drop_first());
    }
}

/// `name_le` is the lexicographic order of `String` by code point: `a` comes no later than `b`
/// exactly when `a` is a prefix of `b` (equal names included), or when at the first position
/// where they differ `a` has the smaller character.
pub proof fn lemma_name_le_lexicographic(a: Seq<char>, b: Seq<char>)
    ensures
        name_le(a, b) <==> (a.len() <= b.len() && b.take(a.len() as int) == a) || exists|i: int|
            0 <= i < a.len() && i < b.len() && #[trigger] a.take(i) == b.take(i) && (a[i] as u32) < (
            b[i] as u32),
    decreases a.len(),
{
    if a.len() == 0 {
        assert(b.take(0) =~= a);
    } else if b.len() == 0 {
    } else if (a[0] as u32) < (b[0] as u32) {
        assert(a.take(0) =~= b.take(0));
    } else if (a[0] as u32) > (b[0] as u32) {
        if a.len() <= b.len() && b.take(a.len() as int) == a {
            assert(b.take(a.len() as int)[0] == b[0]);
        }
        if exists|i: int|
            0 <= i < a.len() && i < b.len() && #[trigger] a.take(i) == b.take(i) && (a[i] as u32)
                < (b[i] as u32) {
            let i = choose|i: int|
                0 <= i < a.len() && i < b.len() && #[trigger] a.take(i) == b.take(i) && (a[i] as u32)
                    < (b[i] as u32);
            if i > 0 {
                assert(a.take(i)[0] == a[0]);
                assert(b.take(i)[0] == b[0]);
            }
        }
    } else {
        vstd::utf8::char_u32_cast(a[0], a[0] as u32);
        vstd::utf8::char_u32_cast(b[0], b[0] as u32);
        assert(a[0] == b[0]);
        let a1 = a.drop_first();
        let b1 = b.drop_first();
        lemma_name_le_lexicographic(a1, b1);
        // The prefix case, one character further on.
        if a.len() <= b.len() && b.take(a.len() as int) == a {
            assert(b1.take(a1.len() as int) =~= a1) by {
                assert forall|k: int| 0 <= k < a1.len() implies b1.take(a1.len() as int)[k] == a1[k] by {
                    assert(b.take(a.len() as int)[k + 1] == b[k + 1]);
                }
            }
        }
        if a1.len() <= b1.len() && b1.take(a1.len() as int) == a1 {
            assert(b.take(a.len() as int) =~= a) by {
                assert forall|k: int| 0 <= k < a.len() implies b.take(a.len() as int)[k] == a[k] by {
                    if k > 0 {
                        assert(b1.take(a1.len() as int)[k - 1] == b1[k - 1]);
                    }
                }
            }
        }
        // The first difference, one character further on.
        if exists|i: int|
            0 <= i < a1.len() && i < b1.len() && #[trigger] a1.take(i) == b1.take(i) && (a1[i] as u32)
                < (b1[i] as u32) {
            let i = choose|i: int|
                0 <= i < a1.len() && i < b1.len() && #[trigger] a1.take(i) == b1.take(i) && (
                a1[i] as u32) < (b1[i] as u32);
            assert(a.take(i + 1) =~= b.take(i + 1)) by {
                assert forall|k: int| 0 <= k < i + 1 implies #[trigger] a.take(i + 1)[k] == b.take(i + 1)[k] by {
                    if k > 0 {
                        assert(a1.take(i)[k - 1] == b1.take(i)[k - 1]);
                    }
                }
            }
            assert(a[i + 1] == a1[i] && b[i + 1] == b1[i]);
        }
        if exists|i: int|
            0 <= i < a.len() && i < b.len() && #[trigger] a.take(i) == b.take(i) && (a[i] as u32) < (
            b[i] as u32) {
            let i = choose|i: int|
                0 <= i < a.len() && i < b.len() && #[trigger] a.take(i) == b.take(i) && (a[i] as u32)
                    < (b[i] as u32);
            assert(i > 0);
            assert(a1.take(i - 1) =~= b1.take(i - 1)) by {
                assert forall|k: int| 0 <= k < i - 1 implies #[trigger] a1.take(i - 1)[k] == b1.take(i - 1)[k] by {
                    assert(a.take(i)[k + 1] == b.take(i)[k + 1]);
                }
            }
            assert(a1[i - 1] == a[i] && b1[i - 1] == b[i]);
        }
    }
}

/// A name comes before every longer name that it is a prefix of (`react` before `react-dom`),
/// and never after one: `a` is no later than `a + t`, and `a + t` is no later than `a` only
/// when `t` is empty.
pub proof fn lemma_name_le_prefix(a: Seq<char>, t: Seq<char>)
    ensures
        name_le(a, a + t),
        name_le(a + t, a) ==> t.len() == 0,
{
    lemma_name_le_lexicographic(a, a + t);
    assert((a + t).take(a.len() as int) =~= a);
    lemma_name_le_lexicographic(a + t, a);
    if t.len() > 0 && name_le(a + t, a) {
        if exists|i: int|
            0 <= i < (a + t).len() && i < a.len() && #[trigger] (a + t).take(i) == a.take(i) && ((a
                + t)[i] as u32) < (a[i] as u32) {
            let i = choose|i: int|
                0 <= i < (a + t).len() && i < a.len() && #[trigger] (a + t).take(i) == a.take(i) && ((
                a + t)[i] as u32) < (a[i] as u32);
            assert((a + t)[i] == a[i]);
        }
    }
}

/// A plugin installed in the web profile.
pub struct PluginInfo {
    pub name: String,
    pub version: String,
    pub is_bundle: bool,
}

/// The row a plugin shows as.
pub open spec fn row_of(p: PluginInfo) -> PluginRow {
    (p.name@, p.version@, p.is_bundle)
}

/// The rows of a list of plugins.
pub open spec fn rows_of(ps: Seq<PluginInfo>) -> Seq<PluginRow> {
    ps.map_values(|p: PluginInfo| row_of(p))
}

/// Rows in order of their names.
pub open spec fn sorted_by_name(rows: Seq<PluginRow>) -> bool {
    forall|i: int, j: int| 0 <= i < j < rows.len() ==> name_le(rows[i].0, rows[j].0)
}

/// The member `key` of an object.
pub fn get<'a>(j: &'a Json, key: &str) -> (r: Option<&'a Json>)
    ensures
        r matches Some(v) ==> json_get(*j, key@) == Some(*v),
        r is None ==> json_get(*j, key@) is None,
{
    match j {
        Json::Object(entries) => {
            let mut i: usize = 0;
            assert(entries@.skip(0) =~= entries@);
            while i < entries.len()
                invariant
                    i <= entries.len(),
                    json_get(*j, key@) == entry_value(entries@, key@),
                    entry_value(entries@, key@) == entry_value(entries@.skip(i as int), key@),
                decreases entries.len() - i,
            {
                assert(entries@.skip(i as int).drop_first() =~= entries@.skip(i + 1));
                assert(entries@.skip(i as int)[0] == entries@[i as int]);
                if str_equal(entries[i].0.as_str(), key) {
                    return Some(&entries[i].1);
                }
                i += 1;
            }
            None
        },
        _ => None,
    }
}

/// The strings among `items`.
fn collect_strings(items: &Vec<Json>) -> (r: Vec<String>)
    ensures
        r@.map_values(|s: String| s@) == strings_in(items@),
{
    let mut r: Vec<String> = Vec::new();
    let mut i: usize = 0;
    while i < items.len()
        invariant
            i <= items.len(),
            r@.map_values(|s: String| s@) == strings_in(items@.take(i as int)),
        decreases items.len() - i,
    {
        assert(items@.take(i + 1).drop_last() =~= items@.take(i as int));
        assert(items@.take(i + 1).last() == items@[i as int]);
        let ghost before = r@;
        match &items[i] {
            Json::Str(s) => {
                r.push(s.clone());
                assert(r@.map_values(|s: String| s@) =~= before.map_values(|s: String| s@).push(
                    s@,
                ));
            },
            _ => {},
        }
        i += 1;
    }
    assert(items@.take(items.len() as int) =~= items@);
    r
}

/// The bundle names listed at `/dsh/profile/bundles`.
pub fn bundles_of(manifest: &Json) -> (r: Vec<String>)
    ensures
        r@.map_values(|s: String| s@) == bundle_names(*manifest),
{
    let empty: Vec<String> = Vec::new();
    assert(empty@.map_values(|s: String| s@) =~= Seq::<Seq<char>>::empty());
    match get(manifest, "dsh") {
        Some(d) => match get(d, "profile") {
            Some(p) => match get(p, "bundles") {
                Some(Json::Array(items)) => collect_strings(items),
                _ => empty,
            },
            None => empty,
        },
        None => empty,
    }
}

/// `s` without its leading run of `c`, from index `lo` on.
fn skip_leading(v: &Vec<char>, lo: usize, c: char) -> (k: usize)
    requires
        lo <= v.len(),
    ensures
        lo <= k <= v.len(),
        trim_leading(v@.skip(lo as int), c) == v@.skip(k as int),
{
    let mut k = lo;
    while k < v.len() && v[k] == c
        invariant
            lo <= k <= v.len(),
            trim_leading(v@.skip(lo as int), c) == trim_leading(v@.skip(k as int), c),
        decreases v.len() - k,
    {
        assert(v@.skip(k as int).drop_first() =~= v@.skip(k + 1));
        k += 1;
    }
    k
}

/// The version shown for a dependency's version range.
fn version_shown(v: &Json) -> (r: String)
    ensures
        r@ == shown_version(*v),
{
    match v {
        Json::Str(s) => {
            let c = chars_of(s.as_str());
            let k1 = skip_leading(&c, 0, '^');
            assert(c@.skip(0) =~= c@);
            let k2 = skip_leading(&c, k1, '~');
            assert(c@.subrange(k2 as int, c.len() as int) =~= c@.skip(k2 as int));
            crate::text::string_from_range(&c, k2, c.len())
        },
        _ => String::new(),
    }
}

/// Whether `name` is among `names`.
fn contains_name(names: &Vec<String>, name: &str) -> (b: bool)
    ensures
        b == names@.map_values(|s: String| s@).contains(name@),
{
    let ghost view = names@.map_values(|s: String| s@);
    let mut i: usize = 0;
    while i < names.len()
        invariant
            i <= names.len(),
            view == names@.map_values(|s: String| s@),
            forall|j: int| 0 <= j < i ==> view[j] != name@,
        decreases names.len() - i,
    {
        if str_equal(names[i].as_str(), name) {
            assert(view[i as int] == name@);
            return true;
        }
        i += 1;
    }
    false
}

/// Whether `a` comes no later than `b` by name.
fn names_in_order(a: &String, b: &String) -> (r: bool)
    ensures
        r == name_le(a@, b@),
{
    let x = chars_of(a.as_str());
    let y = chars_of(b.as_str());
    let mut i: usize = 0;
    assert(x@.skip(0) =~= x@);
    assert(y@.skip(0) =~= y@);
    while i < x.len()
        invariant
            i <= x.len(),
            i <= y.len(),
            name_le(a@, b@) == name_le(x@.skip(i as int), y@.skip(i as int)),
            x@ == a@,
            y@ == b@,
        decreases x.len() - i,
    {
        assert(x@.skip(i as int).drop_first() =~= x@.skip(i + 1));
        assert(x@.skip(i as int)[0] == x@[i as int]);
        if i >= y.len() {
            return false;
        }
        assert(y@.skip(i as int).drop_first() =~= y@.skip(i + 1));
        assert(y@.skip(i as int)[0] == y@[i as int]);
        let cx = x[i] as u32;
        let cy = y[i] as u32;
        if cx < cy {
            return true;
        }
        if cx > cy {
            return false;
        }
        i += 1;
    }
    true
}

/// Inserts `p` into the name-sorted `out`, after every plugin whose name is no later.
fn insert_sorted(out: &mut Vec<PluginInfo>, p: PluginInfo) -> (k: usize)
    requires
        sorted_by_name(rows_of(old(out)@)),
    ensures
        k <= old(out)@.len(),
        final(out)@ == old(out)@.insert(k as int, p),
        sorted_by_name(rows_of(final(out)@)),
        rows_of(final(out)@).to_multiset() == rows_of(old(out)@).to_multiset().insert(row_of(p)),
{
    let mut k: usize = 0;
    while k < out.len() && names_in_order(&out[k].name, &p.name)
        invariant
            k <= out.len(),
            forall|q: int| 0 <= q < k ==> name_le(#[trigger] out@[q].name@, p.name@),
        decreases out.len() - k,
    {
        k += 1;
    }
    let ghost before = out@;
    let ghost row = row_of(p);
    proof {
        if k < out.len() {
            lemma_name_le_total(out@[k as int].name@, p.name@);
        }
    }
    out.insert(k, p);
    proof {
        assert(rows_of(out@) =~= rows_of(before).insert(k as int, row));
        assert forall|i: int, j: int| 0 <= i < j < rows_of(out@).len() implies name_le(
            rows_of(out@)[i].0,
            rows_of(out@)[j].0,
        ) by {
            if j < k {
                assert(rows_of(before)[i].0 == before[i].name@);
            } else if j == k {
                assert(name_le(before[i].name@, row.0));
            } else if i == k {
                if k < j - 1 {
                    assert(name_le(rows_of(before)[k as int].0, rows_of(before)[j - 1].0));
                    lemma_name_le_transitive(row.0, before[k as int].name@, before[j - 1].name@);
                }
            } else if i < k {
                assert(name_le(rows_of(before)[i].0, rows_of(before)[j - 1].0));
            } else {
                assert(name_le(rows_of(before)[i - 1].0, rows_of(before)[j - 1].0));
            }
        }
    }
    k
}

/// The entries of an object have distinct keys.
pub open spec fn keys_distinct(entries: Seq<(String, Json)>) -> bool {
    forall|i: int, j: int| 0 <= i < j < entries.len() ==> entries[i].0@ != entries[j].0@
}

/// The manifest's `dependencies`, when it is an object, has distinct keys.
pub open spec fn dependencies_distinct(manifest: Json) -> bool {
    match json_get(manifest, "dependencies"@) {
        Some(Json::Object(deps)) => keys_distinct(deps@),
        _ => true,
    }
}

/// No two rows have the same name.
pub open spec fn distinct_names(rows: Seq<PluginRow>) -> bool {
    forall|i: int, j: int| 0 <= i < j < rows.len() ==> rows[i].0 != rows[j].0
}

/// The names of a list of entries.
pub open spec fn entry_names(entries: Seq<(String, Json)>) -> Seq<Seq<char>> {
    entries.map_values(|e: (String, Json)| e.0@)
}

/// A member found by `entry_value` is the value of one of the entries.
proof fn lemma_entry_value_member(entries: Seq<(String, Json)>, key: Seq<char>)
    ensures
        entry_value(entries, key) matches Some(v) ==> exists|i: int|
            0 <= i < entries.len() && #[trigger] entries[i].1 == v,
    decreases entries.len(),
{
    if entries.len() > 0 && entries[0].0@ != key {
        lemma_entry_value_member(entries.drop_first(), key);
        if let Some(v) = entry_value(entries, key) {
            let i = choose|i: int| 0 <= i < entries.drop_first().len() && #[trigger] entries.drop_first()[i].1 == v;
            assert(entries[i + 1].1 == v);
        }
    } else if entries.len() > 0 {
        assert(entries[0].1 == entry_value(entries, key)->0);
    }
}

/// In a document whose objects all have distinct keys, so has its `dependencies`.
proof fn lemma_distinct_dependencies(j: Json)
    requires
        json_keys_distinct(j),
    ensures
        dependencies_distinct(j),
{
    if let Json::Object(entries) = j {
        lemma_entry_value_member(entries@, "dependencies"@);
        if let Some(v) = entry_value(entries@, "dependencies"@) {
            let i = choose|i: int| 0 <= i < entries@.len() && #[trigger] entries@[i].1 == v;
            assert(json_keys_distinct(entries@[i].1));
        }
    }
}

/// Lists the plugins installed in the profile (the manifest's `dependencies`), sorted by
/// name, each with its version without a leading `^` or `~`, and marked when a bundle of
/// the profile lists it. When the dependencies have distinct names (as in any parsed JSON
/// document), each name is listed once, so the order is strictly ascending.
pub fn list_plugins(manifest: &Json) -> (r: Vec<PluginInfo>)
    ensures
        sorted_by_name(rows_of(r@)),
        rows_of(r@).to_multiset() == dependency_rows(*manifest).to_multiset(),
        dependencies_distinct(*manifest) ==> distinct_names(rows_of(r@)),
{
    let bundles = bundles_of(manifest);
    let mut out: Vec<PluginInfo> = Vec::new();
    assert(rows_of(out@) =~= Seq::<PluginRow>::empty());
    match get(manifest, "dependencies") {
        Some(Json::Object(deps)) => {
            let ghost all = deps@.map_values(
                |e: (String, Json)| dependency_row(e, bundle_names(*manifest)),
            );
            let mut i: usize = 0;
            while i < deps.len()
                invariant
                    i <= deps.len(),
                    all == deps@.map_values(
                        |e: (String, Json)| dependency_row(e, bundle_names(*manifest)),
                    ),
                    bundles@.map_values(|s: String| s@) == bundle_names(*manifest),
                    sorted_by_name(rows_of(out@)),
                    rows_of(out@).to_multiset() == all.take(i as int).to_multiset(),
                    json_get(*manifest, "dependencies"@) == Some(Json::Object(*deps)),
                    forall|q: int| 0 <= q < out@.len() ==> entry_names(deps@.take(i as int)).contains(
                        #[trigger] out@[q].name@,
                    ),
                    dependencies_distinct(*manifest) ==> distinct_names(rows_of(out@)),
                decreases deps.len() - i,
            {
                let name = deps[i].0.clone();
                let version = version_shown(&deps[i].1);
                let is_bundle = contains_name(&bundles, name.as_str());
                let p = PluginInfo { name, version, is_bundle };
                assert(row_of(p) == all[i as int]);
                assert(all.take(i + 1) =~= all.take(i as int).push(all[i as int]));
                let ghost before = out@;
                let ghost pv = p;
                let k = insert_sorted(&mut out, p);
                proof {
                    let names = entry_names(deps@.take(i as int));
                    let names1 = entry_names(deps@.take(i + 1));
                    assert(names1 =~= names.push(deps@[i as int].0@));
                    assert(pv.name@ == deps@[i as int].0@);
                    assert forall|q: int| 0 <= q < out@.len() implies names1.contains(
                        #[trigger] out@[q].name@,
                    ) by {
                        if q < k {
                            assert(out@[q] == before[q]);
                            assert(names.contains(before[q].name@));
                            let w = choose|w: int| 0 <= w < names.len() && names[w] == before[q].name@;
                            assert(names1[w] == names[w]);
                        } else if q == k {
                            assert(names1[i as int] == pv.name@);
                        } else {
                            assert(out@[q] == before[q - 1]);
                            assert(names.contains(before[q - 1].name@));
                            let w = choose|w: int| 0 <= w < names.len() && names[w] == before[q
                                - 1].name@;
                            assert(names1[w] == names[w]);
                        }
                    }
                    if dependencies_distinct(*manifest) {
                        assert(keys_distinct(deps@));
                        assert forall|q: int| 0 <= q < before.len() implies before[q].name@
                            != pv.name@ by {
                            assert(names.contains(before[q].name@));
                            let w = choose|w: int| 0 <= w < names.len() && names[w] == before[q].name@;
                            assert(names[w] == deps@[w].0@);
                        }
                        assert forall|x: int, y: int| 0 <= x < y < rows_of(out@).len() implies rows_of(
                            out@,
                        )[x].0 != rows_of(out@)[y].0 by {
                            assert(rows_of(out@)[x].0 == out@[x].name@);
                            assert(rows_of(out@)[y].0 == out@[y].name@);
                            if y < k {
                                assert(rows_of(before)[x].0 != rows_of(before)[y].0);
                            } else if y == k {
                                assert(out@[x] == before[x]);
                            } else if x == k {
                                assert(out@[y] == before[y - 1]);
                            } else if x < k {
                                assert(rows_of(before)[x].0 != rows_of(before)[y - 1].0);
                            } else {
                                assert(rows_of(before)[x - 1].0 != rows_of(before)[y - 1].0);
                            }
                        }
                    }
                }
                i += 1;
            }
            assert(all.take(deps.len() as int) =~= all);
            out
        },
        _ => out,
    }
}

/// Lists the plugins of a profile from the text of its `package.json`, as `list_plugins`
/// does on the parsed document. When the text is not JSON, the error is the parse failure's
/// message (`Failed to parse package.json: <detail>`).
pub fn plugins_of_manifest_text(is_zh: bool, text: &str) -> (r: Result<Vec<PluginInfo>, String>)
    ensures
        r is Ok <==> parsed_json(text@) is Some,
        r matches Ok(ps) ==> sorted_by_name(rows_of(ps@)) && distinct_names(rows_of(ps@))
            && rows_of(ps@).to_multiset() == dependency_rows(parsed_json(text@)->0).to_multiset(),
        r matches Err(m) ==> exists|d: Seq<char>|
            m@ == failure_text(Failure::ParseManifest, is_zh) + ": "@ + d,
{
    match parse_json(text) {
        Ok(j) => {
            proof {
                lemma_distinct_dependencies(j);
            }
            Ok(list_plugins(&j))
        },
        Err(e) => {
            let detail = json_error_text(&e);
            let m = failure_message(Failure::ParseManifest, is_zh, detail.as_str());
            assert(m@ == failure_text(Failure::ParseManifest, is_zh) + ": "@ + detail@);
            Err(m)
        },
    }
}

} // verus!
