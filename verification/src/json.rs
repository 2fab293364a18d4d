//! JSON lines: the members of an object and the strings among them.
use crate::text::same_text;
use vstd::prelude::*;

verus! {

/// What a JSON text reads as, one level deep: the members of an object are their keys and their
/// values as compact JSON text.
#[derive(Debug)]
pub enum JsonShape {
    Object(Vec<(String, String)>),
    Text(String),
    Other,
}

/// A shape as a value of mathematics.
pub ghost enum ShapeView {
    Object(Seq<(Seq<char>, Seq<char>)>),
    Text(Seq<char>),
    Other,
}

/// The texts of a list of pairs.
pub open spec fn string_pairs(pairs: Seq<(String, String)>) -> Seq<(Seq<char>, Seq<char>)> {
    pairs.map_values(|pair: (String, String)| (pair.0@, pair.1@))
}

impl View for JsonShape {
    type V = ShapeView;

    open spec fn view(&self) -> ShapeView {
        match *self {
            JsonShape::Object(members) => ShapeView::Object(string_pairs(members@)),
            JsonShape::Text(text) => ShapeView::Text(text@),
            JsonShape::Other => ShapeView::Other,
        }
    }
}

/// What `serde_json` reads from a text: nothing where the text is not JSON.
pub uninterp spec fn json_reading(text: Seq<char>) -> Option<ShapeView>;

/// Reads a JSON text. Calls `serde_json::from_str` for a `serde_json::Value`; of an object each
/// member's value is handed out as `Value::to_string` writes it. What a text reads as is left to
/// the name.
#[verifier::external_body]
fn read_json(text: &str) -> (r: Option<JsonShape>)
    ensures
        match r {
            Some(shape) => json_reading(text@) == Some(shape@),
            None => json_reading(text@) is None,
        },
{
    match serde_json::from_str::<serde_json::Value>(text) {
        Ok(serde_json::Value::Object(map)) => {
            Some(JsonShape::Object(map.into_iter().map(|(k, v)| (k, v.to_string())).collect()))
        },
        Ok(serde_json::Value::String(text)) => Some(JsonShape::Text(text)),
        Ok(_) => Some(JsonShape::Other),
        Err(_) => None,
    }
}

/// A member of a JSON object, as far as a log line is concerned.
#[derive(Debug, PartialEq, Eq)]
pub struct JsonMember {
    pub key: String,
    /// The value as compact JSON text.
    pub rendered: String,
    /// The value where it is a string and the key has a meaning of its own.
    pub text: Option<String>,
    /// The string under `level` in the value, where the key is `log` and the value an object.
    pub level: Option<String>,
}

/// A member as a value of mathematics.
pub ghost struct MemberView {
    pub key: Seq<char>,
    pub rendered: Seq<char>,
    pub text: Option<Seq<char>>,
    pub level: Option<Seq<char>>,
}

impl View for JsonMember {
    type V = MemberView;

    open spec fn view(&self) -> MemberView {
        MemberView {
            key: self.key@,
            rendered: self.rendered@,
            text: crate::text::optional_text(self.text),
            level: crate::text::optional_text(self.level),
        }
    }
}

/// The members of a list.
pub open spec fn member_views(members: Seq<JsonMember>) -> Seq<MemberView> {
    members.map_values(|member: JsonMember| member@)
}

/// The key tells of the time of a row, its severity or its message, and is no field of its own.
pub open spec fn is_reserved(key: Seq<char>) -> bool {
    ||| key == "timestamp"@
    ||| key == "time"@
    ||| key == "ts"@
    ||| key == "@timestamp"@
    ||| key == "level"@
    ||| key == "severity"@
    ||| key == "message"@
    ||| key == "msg"@
}

/// The string that a JSON text is.
pub open spec fn string_in(rendered: Seq<char>) -> Option<Seq<char>> {
    match json_reading(rendered) {
        Some(ShapeView::Text(text)) => Some(text),
        _ => None,
    }
}

/// The value of the first member with this key.
pub open spec fn member_value(members: Seq<(Seq<char>, Seq<char>)>, key: Seq<char>) -> Option<
    Seq<char>,
>
    decreases members.len(),
{
    if members.len() == 0 {
        None
    } else if members[0].0 == key {
        Some(members[0].1)
    } else {
        member_value(members.subrange(1, members.len() as int), key)
    }
}

/// The string under `level` in the object that a JSON text is.
pub open spec fn level_in(rendered: Seq<char>) -> Option<Seq<char>> {
    match json_reading(rendered) {
        Some(ShapeView::Object(members)) => match member_value(members, "level"@) {
            Some(value) => string_in(value),
            None => None,
        },
        _ => None,
    }
}

/// A member of a log line with the given key and value.
pub open spec fn member_of(key: Seq<char>, rendered: Seq<char>) -> MemberView {
    MemberView {
        key,
        rendered,
        text: if is_reserved(key) || key == "log"@ {
            string_in(rendered)
        } else {
            None
        },
        level: if key == "log"@ {
            level_in(rendered)
        } else {
            None
        },
    }
}

/// The members of a log line: nothing where it is not JSON, none where it is no object.
pub open spec fn record_in(line: Seq<char>) -> Option<Seq<MemberView>> {
    match json_reading(line) {
        Some(ShapeView::Object(members)) => Some(
            members.map_values(|member: (Seq<char>, Seq<char>)| member_of(member.0, member.1)),
        ),
        Some(_) => Some(Seq::empty()),
        None => None,
    }
}

/// Whether the key has a meaning of its own.
pub fn reserved_key(key: &str) -> (r: bool)
    ensures
        r == is_reserved(key@),
{
    same_text(key, "timestamp") || same_text(key, "time") || same_text(key, "ts") || same_text(
        key,
        "@timestamp",
    ) || same_text(key, "level") || same_text(key, "severity") || same_text(key, "message")
        || same_text(key, "msg")
}

/// The string that a JSON text is.
fn read_string(rendered: &str) -> (r: Option<String>)
    ensures
        crate::text::optional_text(r) == string_in(rendered@),
{
    match read_json(rendered) {
        Some(JsonShape::Text(text)) => Some(text),
        _ => None,
    }
}

/// The string under `level` in the object that a JSON text is.
fn read_level(rendered: &str) -> (r: Option<String>)
    ensures
        crate::text::optional_text(r) == level_in(rendered@),
{
    match read_json(rendered) {
        Some(JsonShape::Object(members)) => {
            let ghost all = string_pairs(members@);
            let mut i: usize = 0;
            assert(all.subrange(0, all.len() as int) =~= all);
            while i < members.len()
                invariant
                    i <= members@.len(),
                    all == string_pairs(members@),
                    member_value(all, "level"@) == member_value(
                        all.subrange(i as int, all.len() as int),
                        "level"@,
                    ),
                    json_reading(rendered@) == Some(ShapeView::Object(all)),
                decreases members@.len() - i,
            {
                proof {
                    let rest = all.subrange(i as int, all.len() as int);
                    assert(rest[0] == (members@[i as int].0@, members@[i as int].1@));
                    assert(rest.subrange(1, rest.len() as int) =~= all.subrange(
                        i + 1,
                        all.len() as int,
                    ));
                }
                if same_text(&members[i].0, "level") {
                    return read_string(&members[i].1);
                }
                i += 1;
            }
            None
        },
        _ => None,
    }
}

/// Reads the members of a log line.
pub fn read_record(line: &str) -> (r: Option<Vec<JsonMember>>)
    ensures
        match r {
            Some(members) => record_in(line@) == Some(member_views(members@)),
            None => record_in(line@) is None,
        },
{
    match read_json(line) {
        None => None,
        Some(JsonShape::Object(members)) => {
            let ghost all = string_pairs(members@);
            let mut out: Vec<JsonMember> = Vec::new();
            let mut i: usize = 0;
            while i < members.len()
                invariant
                    i <= members@.len(),
                    all == string_pairs(members@),
                    out@.len() == i,
                    forall|k: int|
                        0 <= k < i ==> (#[trigger] out@[k])@ == member_of(all[k].0, all[k].1),
                decreases members@.len() - i,
            {
                let key: &str = members[i].0.as_str();
                let rendered: &str = members[i].1.as_str();
                let is_log: bool = same_text(key, "log");
                let text = if is_log || reserved_key(key) {
                    read_string(rendered)
                } else {
                    None
                };
                let level = if is_log {
                    read_level(rendered)
                } else {
                    None
                };
                out.push(
                    JsonMember { key: key.to_owned(), rendered: rendered.to_owned(), text, level },
                );
                i += 1;
            }
            assert(member_views(out@) =~= all.map_values(
                |member: (Seq<char>, Seq<char>)| member_of(member.0, member.1),
            ));
            Some(out)
        },
        Some(_) => {
            let out: Vec<JsonMember> = Vec::new();
            assert(member_views(out@) =~= Seq::<MemberView>::empty());
            Some(out)
        },
    }
}

} // verus!
