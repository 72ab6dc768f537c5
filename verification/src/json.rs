//! JSON values as plain data.

use vstd::prelude::*;

use crate::text;

verus! {

/// A JSON value. A number is kept as its text, an object as its members in their order.
#[derive(Debug, PartialEq, Eq)]
pub enum Json {
    Null,
    Bool(bool),
    Number(String),
    Text(String),
    Array(Vec<Json>),
    Object(Vec<(String, Json)>),
}

/// What a `Json` holds.
#[verifier::ext_equal]
pub enum JsonValue {
    Null,
    Bool(bool),
    Number(Seq<char>),
    Text(Seq<char>),
    Array(Seq<JsonValue>),
    Object(Seq<(Seq<char>, JsonValue)>),
}

/// What a `Json` holds.
pub open spec fn json_value(j: Json) -> JsonValue
    decreases j,
{
    match j {
        Json::Null => JsonValue::Null,
        Json::Bool(b) => JsonValue::Bool(b),
        Json::Number(n) => JsonValue::Number(n@),
        Json::Text(s) => JsonValue::Text(s@),
        Json::Array(items) => JsonValue::Array(
            Seq::new(
                items@.len(),
                |i: int|
                    if 0 <= i < items@.len() {
                        json_value(items@[i])
                    } else {
                        JsonValue::Null
                    },
            ),
        ),
        Json::Object(members) => JsonValue::Object(
            Seq::new(
                members@.len(),
                |i: int|
                    if 0 <= i < members@.len() {
                        (members@[i].0@, json_value(members@[i].1))
                    } else {
                        (Seq::empty(), JsonValue::Null)
                    },
            ),
        ),
    }
}

impl DeepView for Json {
    type V = JsonValue;

    open spec fn deep_view(&self) -> JsonValue {
        json_value(*self)
    }
}

/// The member `key` of an object; nothing of any other value.
pub open spec fn member_of(j: JsonValue, key: Seq<char>) -> Option<JsonValue> {
    match j {
        JsonValue::Object(members) => first_member(members, key),
        _ => None,
    }
}

/// The first of `members` that is named `key`.
pub open spec fn first_member(members: Seq<(Seq<char>, JsonValue)>, key: Seq<char>) -> Option<
    JsonValue,
>
    decreases members.len(),
{
    if members.len() == 0 {
        None
    } else if members[0].0 == key {
        Some(members[0].1)
    } else {
        first_member(members.skip(1), key)
    }
}

/// The hexadecimal digit that counts `n`.
pub open spec fn hex_char(n: int) -> char {
    if n < 10 {
        (('0' as int) + n) as char
    } else {
        (('a' as int) + n - 10) as char
    }
}

/// How a character is written in a string: quote, backslash and control characters are
/// escaped, some of the latter by a letter and the others by their number.
pub open spec fn escaped_char(c: char) -> Seq<char> {
    if c == '"' || c == '\\' {
        seq!['\\', c]
    } else if c == '\u{8}' {
        seq!['\\', 'b']
    } else if c == '\t' {
        seq!['\\', 't']
    } else if c == '\n' {
        seq!['\\', 'n']
    } else if c == '\u{c}' {
        seq!['\\', 'f']
    } else if c == '\r' {
        seq!['\\', 'r']
    } else if (c as int) < 32 {
        seq!['\\', 'u', '0', '0', hex_char(c as int / 16), hex_char(c as int % 16)]
    } else {
        seq![c]
    }
}

/// How the characters of a string are written.
pub open spec fn escaped(s: Seq<char>) -> Seq<char>
    decreases s.len(),
{
    if s.len() == 0 {
        Seq::empty()
    } else {
        escaped(s.drop_last()) + escaped_char(s.last())
    }
}

/// The text that JSON writes for a string, quotes included.
pub open spec fn string_text(s: Seq<char>) -> Seq<char> {
    seq!['"'] + escaped(s) + seq!['"']
}

/// `serde_json`'s text of a string value: the string in double quotes, with those
/// characters escaped that JSON does not take as they are.
#[verifier::external_body]
pub(crate) fn write_string(s: &str) -> (r: String)
    ensures
        r@ == string_text(s@),
{
    serde_json::Value::String(s.to_string()).to_string()
}

impl Json {
    /// The member `key`, where the value is an object that has it.
    pub fn get(&self, key: &str) -> (r: Option<&Json>)
        ensures
            r.deep_view() == member_of(self.deep_view(), key@),
    {
        match self {
            Json::Object(members) => {
                let ghost all = self.deep_view()->Object_0;
                let mut i: usize = 0;
                assert(all.skip(0) =~= all);
                while i < members.len()
                    invariant
                        i <= members.len(),
                        *self == Json::Object(*members),
                        all == self.deep_view()->Object_0,
                        first_member(all.skip(i as int), key@) == first_member(all, key@),
                    decreases members.len() - i,
                {
                    proof {
                        assert(all.skip(i as int)[0] == (
                            members@[i as int].0@,
                            json_value(members@[i as int].1),
                        ));
                        assert(all.skip(i as int).skip(1) =~= all.skip(i + 1));
                    }
                    if text::same(members[i].0.as_str(), key) {
                        return Some(&members[i].1);
                    }
                    i = i + 1;
                }
                None
            },
            _ => None,
        }
    }

    /// The text, where the value is one.
    pub fn as_text(&self) -> (r: Option<&str>)
        ensures
            match self.deep_view() {
                JsonValue::Text(s) => r matches Some(t) && t@ == s,
                _ => r is None,
            },
    {
        match self {
            Json::Text(s) => Some(s.as_str()),
            _ => None,
        }
    }

    /// A text.
    pub fn of_text(s: &str) -> (r: Json)
        ensures
            r.deep_view() == JsonValue::Text(s@),
    {
        Json::Text(s.to_owned())
    }

    /// An object without members.
    pub fn empty_object() -> (r: Json)
        ensures
            r.deep_view() == JsonValue::Object(Seq::empty()),
    {
        let r = Json::Object(Vec::new());
        assert(r.deep_view()->Object_0 =~= Seq::empty());
        r
    }

    /// The object with one more member at its end; any other value as it is.
    pub fn with(self, key: &str, value: Json) -> (r: Json)
        ensures
            r.deep_view() == match self.deep_view() {
                JsonValue::Object(members) => JsonValue::Object(
                    members.push((key@, value.deep_view())),
                ),
                other => other,
            },
    {
        match self {
            Json::Object(members) => {
                let ghost before = self.deep_view()->Object_0;
                let mut members = members;
                let ghost had = members@;
                members.push((key.to_owned(), value));
                let r = Json::Object(members);
                proof {
                    assert forall|i: int| 0 <= i < had.len() implies members@[i] == had[i] by {}
                    assert(r.deep_view()->Object_0 =~= before.push((key@, value.deep_view())));
                }
                r
            },
            other => other,
        }
    }

    /// An array of one value.
    pub fn array1(a: Json) -> (r: Json)
        ensures
            r.deep_view() == JsonValue::Array(seq![a.deep_view()]),
    {
        let mut items: Vec<Json> = Vec::new();
        items.push(a);
        let r = Json::Array(items);
        assert(r.deep_view()->Array_0 =~= seq![a.deep_view()]);
        r
    }

    /// An array of three values.
    pub fn array3(a: Json, b: Json, c: Json) -> (r: Json)
        ensures
            r.deep_view() == JsonValue::Array(
                seq![a.deep_view(), b.deep_view(), c.deep_view()],
            ),
    {
        let mut items: Vec<Json> = Vec::new();
        items.push(a);
        items.push(b);
        items.push(c);
        let r = Json::Array(items);
        assert(r.deep_view()->Array_0 =~= seq![a.deep_view(), b.deep_view(), c.deep_view()]);
        r
    }
}

/// The member of an object is the first one of its name, and there is none where no member
/// has that name; what is no object has no members.
pub proof fn law_members_are_found_by_name(
    members: Seq<(Seq<char>, JsonValue)>,
    key: Seq<char>,
    i: int,
)
    ensures
        0 <= i < members.len() && members[i].0 == key && (forall|j: int|
            0 <= j < i ==> (#[trigger] members[j]).0 != key) ==> member_of(
            JsonValue::Object(members),
            key,
        ) == Some(members[i].1),
        (forall|j: int| 0 <= j < members.len() ==> (#[trigger] members[j]).0 != key) ==> member_of(
            JsonValue::Object(members),
            key,
        ) is None,
        forall|v: JsonValue| !(v is Object) ==> #[trigger] member_of(v, key) is None,
    decreases members.len(),
{
    if members.len() > 0 {
        let rest = members.skip(1);
        assert(forall|j: int| 0 <= j < rest.len() ==> #[trigger] rest[j] == members[j + 1]);
        if forall|j: int| 0 <= j < members.len() ==> (#[trigger] members[j]).0 != key {
            assert(members[0].0 != key);
        }
        if 0 < i < members.len() && (forall|j: int|
            0 <= j < i ==> (#[trigger] members[j]).0 != key) {
            assert(members[0].0 != key);
        }
        law_members_are_found_by_name(rest, key, i - 1);
        assert(member_of(JsonValue::Object(rest), key) == first_member(rest, key));
    }
}

/// How JSON reads a string, from behind the opening quote: what it holds, and what is left
/// behind the closing quote. Of the numbered escapes those below 256 are read.
pub open spec fn read_string(s: Seq<char>) -> Option<(Seq<char>, Seq<char>)>
    decreases s.len(),
{
    if s.len() == 0 {
        None
    } else if s[0] == '"' {
        Some((Seq::empty(), s.skip(1)))
    } else if s[0] == '\\' {
        if s.len() >= 6 && s[1] == 'u' && s[2] == '0' && s[3] == '0' {
            match read_string(s.skip(6)) {
                Some(r) => Some(
                    (seq![(text::hex_digit(s[4]) * 16 + text::hex_digit(s[5])) as char] + r.0, r.1),
                ),
                None => None,
            }
        } else if s.len() >= 2 {
            let c = if s[1] == 'b' {
                '\u{8}'
            } else if s[1] == 't' {
                '\t'
            } else if s[1] == 'n' {
                '\n'
            } else if s[1] == 'f' {
                '\u{c}'
            } else if s[1] == 'r' {
                '\r'
            } else {
                s[1]
            };
            match read_string(s.skip(2)) {
                Some(r) => Some((seq![c] + r.0, r.1)),
                None => None,
            }
        } else {
            None
        }
    } else {
        match read_string(s.skip(1)) {
            Some(r) => Some((seq![s[0]] + r.0, r.1)),
            None => None,
        }
    }
}

proof fn lemma_escaped_front(s: Seq<char>)
    requires
        s.len() > 0,
    ensures
        escaped(s) == escaped_char(s[0]) + escaped(s.skip(1)),
    decreases s.len(),
{
    if s.len() == 1 {
        assert(s.drop_last() =~= Seq::empty());
        assert(escaped(s.drop_last()) =~= Seq::empty());
        assert(escaped(s.skip(1)) =~= Seq::empty());
        assert(escaped(s) =~= escaped_char(s[0]) + escaped(s.skip(1)));
    } else {
        lemma_escaped_front(s.drop_last());
        assert(s.drop_last().skip(1) =~= s.skip(1).drop_last());
        assert(escaped(s) =~= escaped_char(s[0]) + escaped(s.skip(1)));
    }
}

proof fn lemma_char_code(c: char)
    ensures
        0 <= c as int <= 0x10ffff,
{
}

proof fn lemma_hex_char(d: int)
    requires
        0 <= d < 16,
    ensures
        text::hex_digit(hex_char(d)) == d,
{
    let c = hex_char(d);
    if d < 10 {
        assert(c as int == 48 + d);
    } else {
        assert(c as int == 87 + d);
    }
}

/// A string that is written as JSON is read back as it was, and ends where it should,
/// whatever it holds.
pub proof fn law_strings_read_back(s: Seq<char>, rest: Seq<char>)
    ensures
        string_text(s)[0] == '"',
        read_string((string_text(s) + rest).skip(1)) == Some((s, rest)),
    decreases s.len(),
{
    let written = (string_text(s) + rest).skip(1);
    assert(written =~= escaped(s) + seq!['"'] + rest);
    if s.len() == 0 {
        assert(written.skip(1) =~= rest);
        assert(s =~= Seq::empty());
    } else {
        lemma_escaped_front(s);
        law_strings_read_back(s.skip(1), rest);
        let tail = (string_text(s.skip(1)) + rest).skip(1);
        assert(tail =~= escaped(s.skip(1)) + seq!['"'] + rest);
        let e = escaped_char(s[0]);
        assert(written =~= e + tail);
        assert(seq![s[0]] + s.skip(1) =~= s);
        let c = s[0];
        if c == '"' || c == '\\' || c == '\u{8}' || c == '\t' || c == '\n' || c == '\u{c}' || c
            == '\r' {
            assert(e.len() == 2);
            assert(written[0] == e[0] && written[1] == e[1]);
            assert(written.skip(2) =~= tail);
        } else if (c as int) < 32 {
            let n = c as int;
            lemma_char_code(c);
            assert(e.len() == 6);
            assert(written[0] == e[0] && written[1] == e[1] && written[2] == e[2] && written[3]
                == e[3] && written[4] == e[4] && written[5] == e[5]);
            assert(written.skip(6) =~= tail);
            lemma_hex_char(n / 16);
            lemma_hex_char(n % 16);
        } else {
            assert(e.len() == 1);
            assert(written[0] == e[0]);
            assert(written.skip(1) =~= tail);
        }
    }
}

/// What is said of a JSON value is said of what it holds: every item and every member, with
/// its key, in its place.
pub proof fn law_views_say_what_the_values_hold(j: Json)
    ensures
        match j {
            Json::Null => j.deep_view() is Null,
            Json::Bool(b) => j.deep_view() == JsonValue::Bool(b),
            Json::Number(n) => j.deep_view() == JsonValue::Number(n@),
            Json::Text(s) => j.deep_view() == JsonValue::Text(s@),
            Json::Array(items) => j.deep_view() matches JsonValue::Array(views) && {
                &&& views.len() == items@.len()
                &&& forall|i: int|
                    0 <= i < items@.len() ==> #[trigger] views[i] == items@[i].deep_view()
            },
            Json::Object(members) => j.deep_view() matches JsonValue::Object(views) && {
                &&& views.len() == members@.len()
                &&& forall|i: int|
                    0 <= i < members@.len() ==> (#[trigger] views[i]).0 == members@[i].0@
                        && views[i].1 == members@[i].1.deep_view()
            },
        },
{
}

} // verus!
