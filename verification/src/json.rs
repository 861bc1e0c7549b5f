//! A JSON document as the command-line client reads it, and the table rows
//! it prints for one.

use vstd::prelude::*;
use crate::cli::joined;
use crate::guest_net::{trim, trim_ws};
use crate::text::{owned, push_str, str_eq};

verus! {

/// A JSON value. A number keeps the text it is written as; an array or an
/// object also keeps its compact JSON text, which is how it prints when it
/// stands in a table cell.
#[derive(Debug)]
pub enum JsonValue {
    Null,
    Bool(bool),
    Number(String),
    Str(String),
    Array(Vec<JsonValue>, String),
    Object(Vec<(String, JsonValue)>, String),
}

/// The first member named `key` among `entries`.
pub open spec fn lookup(entries: Seq<(String, JsonValue)>, key: Seq<char>) -> Option<JsonValue>
    decreases entries.len(),
{
    if entries.len() == 0 {
        None
    } else if entries[0].0@ == key {
        Some(entries[0].1)
    } else {
        lookup(entries.drop_first(), key)
    }
}

/// The member `key` of an object; nothing for any other value.
pub open spec fn member(v: JsonValue, key: Seq<char>) -> Option<JsonValue> {
    match v {
        JsonValue::Object(entries, _) => lookup(entries@, key),
        _ => None,
    }
}

/// How a value prints in a table cell: nothing for null, a string's own
/// text, `true`/`false`, a number's text, and the JSON text of anything else.
pub open spec fn cell_text(v: JsonValue) -> Seq<char> {
    match v {
        JsonValue::Null => Seq::empty(),
        JsonValue::Bool(b) => if b { "true"@ } else { "false"@ },
        JsonValue::Number(t) => t@,
        JsonValue::Str(s) => s@,
        JsonValue::Array(_, t) => t@,
        JsonValue::Object(_, t) => t@,
    }
}

/// The text of member `key`, unless it is missing or prints as nothing.
pub open spec fn field_text(v: JsonValue, key: Seq<char>) -> Option<Seq<char>> {
    match member(v, key) {
        Some(m) => if cell_text(m).len() > 0 {
            Some(cell_text(m))
        } else {
            None
        },
        None => None,
    }
}

/// The text of the first of `keys` that has one, or nothing.
pub open spec fn first_field(v: JsonValue, keys: Seq<Seq<char>>) -> Seq<char>
    decreases keys.len(),
{
    if keys.len() == 0 {
        Seq::empty()
    } else {
        match field_text(v, keys[0]) {
            Some(t) => t,
            None => first_field(v, keys.drop_first()),
        }
    }
}

/// `key=text` for each of `keys` that has a text, in order.
pub open spec fn detail_parts(v: JsonValue, keys: Seq<Seq<char>>) -> Seq<Seq<char>>
    decreases keys.len(),
{
    if keys.len() == 0 {
        Seq::empty()
    } else {
        let rest = detail_parts(v, keys.drop_last());
        match field_text(v, keys.last()) {
            Some(t) => rest.push(keys.last() + "="@ + t),
            None => rest,
        }
    }
}

/// The keys shown, in order, in the details column.
pub open spec fn detail_keys() -> Seq<Seq<char>> {
    seq!["host_addr"@, "guest_ip"@, "vcpu"@, "mem_mib"@, "size_gb"@, "host_name"@, "created_at"@]
}

/// One printed table row.
#[derive(Debug, Clone, PartialEq, Eq)]
pub struct Row {
    pub id: String,
    pub name: String,
    pub state: String,
    pub kind: String,
    pub details: String,
}

/// The texts of a row.
pub open spec fn row_texts(r: Row) -> (Seq<char>, Seq<char>, Seq<char>, Seq<char>, Seq<char>) {
    (r.id@, r.name@, r.state@, r.kind@, r.details@)
}

/// The row printed for a resource: the first present of `id`, `vm_id`,
/// `host_id`; of `name`, `username`, `image`; of `state`, `status`, `role`;
/// of `kind`, `type`, `runtime`, `protocol`; and the details.
pub open spec fn row_of(v: JsonValue) -> (Seq<char>, Seq<char>, Seq<char>, Seq<char>, Seq<char>) {
    (
        first_field(v, seq!["id"@, "vm_id"@, "host_id"@]),
        first_field(v, seq!["name"@, "username"@, "image"@]),
        first_field(v, seq!["state"@, "status"@, "role"@]),
        first_field(v, seq!["kind"@, "type"@, "runtime"@, "protocol"@]),
        joined(detail_parts(v, detail_keys()), " "@),
    )
}

/// Whether an object looks like one resource: it has an `id`, a `name` or a `status`.
pub open spec fn looks_like_resource(v: JsonValue) -> bool {
    member(v, "id"@) is Some || member(v, "name"@) is Some || member(v, "status"@) is Some
}

/// The rows printed for a response: one per element of an `items` array;
/// one for an `item`; one per element of a `providers` array; one for an
/// object that looks like a resource; otherwise none.
pub open spec fn rows_for(v: JsonValue) -> Seq<(Seq<char>, Seq<char>, Seq<char>, Seq<char>, Seq<char>)> {
    match member(v, "items"@) {
        Some(JsonValue::Array(items, _)) => items@.map_values(|x: JsonValue| row_of(x)),
        _ => match member(v, "item"@) {
            Some(item) => seq![row_of(item)],
            None => match member(v, "providers"@) {
                Some(JsonValue::Array(ps, _)) => ps@.map_values(|x: JsonValue| row_of(x)),
                _ => if v is Object && looks_like_resource(v) {
                    seq![row_of(v)]
                } else {
                    Seq::empty()
                },
            },
        },
    }
}

/// The member `key` of an object.
pub fn get_member<'a>(v: &'a JsonValue, key: &str) -> (r: Option<&'a JsonValue>)
    ensures
        match r {
            Some(m) => member(*v, key@) == Some(*m),
            None => member(*v, key@) is None,
        },
{
    match v {
        JsonValue::Object(entries, _) => {
            let mut i: usize = 0;
            assert(entries@.subrange(0, entries@.len() as int) =~= entries@);
            assert(member(*v, key@) == lookup(entries@, key@));
            while i < entries.len()
                invariant
                    0 <= i <= entries@.len(),
                    member(*v, key@) == lookup(entries@, key@),
                    lookup(entries@, key@) == lookup(entries@.subrange(i as int, entries@.len() as int), key@),
                decreases entries@.len() - i,
            {
                let ghost rest = entries@.subrange(i as int, entries@.len() as int);
                assert(rest.drop_first() =~= entries@.subrange(i + 1, entries@.len() as int));
                assert(rest[0] == entries@[i as int]);
                if str_eq(entries[i].0.as_str(), key) {
                    assert(rest.len() > 0 && rest[0].0@ == key@);
                    assert(lookup(rest, key@) == Some(entries@[i as int].1));
                    return Some(&entries[i].1);
                }
                i = i + 1;
            }
            assert(entries@.subrange(i as int, entries@.len() as int) =~= Seq::<(String, JsonValue)>::empty());
            None
        },
        _ => None,
    }
}

/// How a value prints in a table cell.
pub fn cell_string(v: &JsonValue) -> (t: String)
    ensures
        t@ == cell_text(*v),
{
    match v {
        JsonValue::Null => String::new(),
        JsonValue::Bool(b) => if *b { owned("true") } else { owned("false") },
        JsonValue::Number(t) => owned(t.as_str()),
        JsonValue::Str(s) => owned(s.as_str()),
        JsonValue::Array(_, t) => owned(t.as_str()),
        JsonValue::Object(_, t) => owned(t.as_str()),
    }
}

/// The text of member `key`, unless it is missing or prints as nothing.
pub fn field(v: &JsonValue, key: &str) -> (r: Option<String>)
    ensures
        match r {
            Some(t) => field_text(*v, key@) == Some(t@),
            None => field_text(*v, key@) is None,
        },
{
    match get_member(v, key) {
        Some(m) => {
            let t = cell_string(m);
            if t.as_str().unicode_len() > 0 {
                Some(t)
            } else {
                None
            }
        },
        None => None,
    }
}

/// The views of a list of keys.
pub open spec fn key_views(keys: Seq<&str>) -> Seq<Seq<char>> {
    keys.map_values(|k: &str| k@)
}

fn first_field_of(v: &JsonValue, keys: &[&str]) -> (t: String)
    ensures
        t@ == first_field(*v, key_views(keys@)),
{
    let mut i: usize = 0;
    assert(keys@.subrange(0, keys@.len() as int) =~= keys@);
    while i < keys.len()
        invariant
            0 <= i <= keys@.len(),
            first_field(*v, key_views(keys@)) == first_field(*v, key_views(keys@.subrange(i as int, keys@.len() as int))),
        decreases keys@.len() - i,
    {
        let ghost rest = key_views(keys@.subrange(i as int, keys@.len() as int));
        assert(rest.drop_first() =~= key_views(keys@.subrange(i + 1, keys@.len() as int)));
        assert(rest[0] == keys@[i as int]@);
        match field(v, keys[i]) {
            Some(t) => {
                return t;
            },
            None => {},
        }
        i = i + 1;
    }
    assert(key_views(keys@.subrange(i as int, keys@.len() as int)) =~= Seq::<Seq<char>>::empty());
    String::new()
}

/// The details column: `key=text` for each detail key that has a text, separated by spaces.
pub fn details(v: &JsonValue) -> (d: String)
    ensures
        d@ == joined(detail_parts(*v, detail_keys()), " "@),
{
    let keys: [&str; 7] = ["host_addr", "guest_ip", "vcpu", "mem_mib", "size_gb", "host_name", "created_at"];
    assert(key_views(keys@) =~= detail_keys());
    let ghost ks = key_views(keys@);
    let mut d = String::new();
    let mut count: usize = 0;
    let mut i: usize = 0;
    while i < 7
        invariant
            0 <= i <= 7,
            keys@.len() == 7,
            ks == key_views(keys@),
            count == detail_parts(*v, ks.subrange(0, i as int)).len(),
            count <= i,
            d@ == joined(detail_parts(*v, ks.subrange(0, i as int)), " "@),
        decreases 7 - i,
    {
        proof {
            assert(ks.subrange(0, i + 1).drop_last() =~= ks.subrange(0, i as int));
            assert(ks.subrange(0, i + 1).last() == keys@[i as int]@);
        }
        match field(v, keys[i]) {
            Some(t) => {
                let ghost old_parts = detail_parts(*v, ks.subrange(0, i as int));
                if count > 0 {
                    push_str(&mut d, " ");
                }
                let ghost mid = d@;
                push_str(&mut d, keys[i]);
                push_str(&mut d, "=");
                push_str(&mut d, t.as_str());
                proof {
                    let part = keys@[i as int]@ + "="@ + t@;
                    let new_parts = detail_parts(*v, ks.subrange(0, i + 1));
                    assert(new_parts == old_parts.push(part));
                    assert(new_parts.drop_last() =~= old_parts);
                    assert(d@ =~= mid + part);
                    if count == 0 {
                        assert(mid =~= Seq::<char>::empty());
                    }
                }
                count = count + 1;
            },
            None => {},
        }
        i = i + 1;
    }
    assert(ks.subrange(0, 7) =~= ks);
    d
}

/// The row printed for one resource.
pub fn row_from_object(v: &JsonValue) -> (r: Row)
    ensures
        row_texts(r) == row_of(*v),
{
    let ids: [&str; 3] = ["id", "vm_id", "host_id"];
    let names: [&str; 3] = ["name", "username", "image"];
    let states: [&str; 3] = ["state", "status", "role"];
    let kinds: [&str; 4] = ["kind", "type", "runtime", "protocol"];
    assert(key_views(ids@) =~= seq!["id"@, "vm_id"@, "host_id"@]);
    assert(key_views(names@) =~= seq!["name"@, "username"@, "image"@]);
    assert(key_views(states@) =~= seq!["state"@, "status"@, "role"@]);
    assert(key_views(kinds@) =~= seq!["kind"@, "type"@, "runtime"@, "protocol"@]);
    Row {
        id: first_field_of(v, &ids),
        name: first_field_of(v, &names),
        state: first_field_of(v, &states),
        kind: first_field_of(v, &kinds),
        details: details(v),
    }
}

/// The row texts of a list of rows.
pub open spec fn rows_texts(rows: Seq<Row>) -> Seq<(Seq<char>, Seq<char>, Seq<char>, Seq<char>, Seq<char>)> {
    rows.map_values(|r: Row| row_texts(r))
}

fn rows_of_all(items: &Vec<JsonValue>) -> (rows: Vec<Row>)
    ensures
        rows_texts(rows@) == items@.map_values(|x: JsonValue| row_of(x)),
{
    let mut rows: Vec<Row> = Vec::new();
    let mut i: usize = 0;
    while i < items.len()
        invariant
            0 <= i <= items@.len(),
            rows_texts(rows@) == items@.subrange(0, i as int).map_values(|x: JsonValue| row_of(x)),
        decreases items@.len() - i,
    {
        let r = row_from_object(&items[i]);
        let ghost before = rows@;
        rows.push(r);
        assert(rows_texts(rows@) =~= rows_texts(before).push(row_texts(r)));
        assert(items@.subrange(0, i + 1).map_values(|x: JsonValue| row_of(x)) =~= items@.subrange(0, i as int).map_values(
            |x: JsonValue| row_of(x),
        ).push(row_of(items@[i as int])));
        i = i + 1;
    }
    assert(items@.subrange(0, items@.len() as int) =~= items@);
    rows
}

/// The rows printed for a response.
pub fn rows_from_value(value: &JsonValue) -> (rows: Vec<Row>)
    ensures
        rows_texts(rows@) == rows_for(*value),
{
    match get_member(value, "items") {
        Some(JsonValue::Array(items, _)) => {
            return rows_of_all(items);
        },
        _ => {},
    }
    match get_member(value, "item") {
        Some(item) => {
            let r = row_from_object(item);
            let rows = vec![r];
            assert(rows_texts(rows@) =~= seq![row_of(*item)]);
            return rows;
        },
        None => {},
    }
    match get_member(value, "providers") {
        Some(JsonValue::Array(ps, _)) => {
            return rows_of_all(ps);
        },
        _ => {},
    }
    let is_object = match value {
        JsonValue::Object(..) => true,
        _ => false,
    };
    if is_object && (get_member(value, "id").is_some() || get_member(value, "name").is_some() || get_member(
        value,
        "status",
    ).is_some()) {
        let r = row_from_object(value);
        let rows = vec![r];
        assert(rows_texts(rows@) =~= seq![row_of(*value)]);
        rows
    } else {
        let rows: Vec<Row> = Vec::new();
        assert(rows_texts(rows@) =~= Seq::empty());
        rows
    }
}

/// The first of `fault_message`, `error` and `message` that an error body has.
pub open spec fn error_member(v: JsonValue) -> Option<JsonValue> {
    match member(v, "fault_message"@) {
        Some(m) => Some(m),
        None => match member(v, "error"@) {
            Some(m) => Some(m),
            None => member(v, "message"@),
        },
    }
}

/// The message of a failed API call with status `status` and body `text`,
/// given the body's parse when it is JSON: the body's error member when
/// that is a string, else the trimmed body, else just the status.
pub open spec fn api_error_text(status: Seq<char>, text: Seq<char>, parsed: Option<JsonValue>) -> Seq<char> {
    let t = trim_ws(text);
    if t.len() == 0 {
        "API request failed with HTTP "@ + status
    } else {
        let detail = match parsed {
            Some(v) => match error_member(v) {
                Some(JsonValue::Str(m)) => m@,
                _ => t,
            },
            None => t,
        };
        "API request failed with HTTP "@ + status + ": "@ + detail
    }
}

/// Words the error of a failed API call; `parsed` is the JSON parse of the
/// trimmed body, when it parses.
pub fn api_error(status: &str, text: &str, parsed: Option<&JsonValue>) -> (m: String)
    ensures
        m@ == api_error_text(
            status@,
            text@,
            match parsed {
                Some(v) => Some(*v),
                None => None,
            },
        ),
{
    let t = trim(text);
    let mut m = owned("API request failed with HTTP ");
    push_str(&mut m, status);
    if t.as_str().unicode_len() == 0 {
        return m;
    }
    push_str(&mut m, ": ");
    let found = match parsed {
        Some(v) => match get_member(v, "fault_message") {
            Some(x) => Some(x),
            None => match get_member(v, "error") {
                Some(x) => Some(x),
                None => get_member(v, "message"),
            },
        },
        None => None,
    };
    match found {
        Some(JsonValue::Str(s)) => push_str(&mut m, s.as_str()),
        _ => push_str(&mut m, t.as_str()),
    }
    m
}

} // verus!
