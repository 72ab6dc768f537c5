//! Reading HTTP request headers.

use axum::http::{HeaderMap, HeaderValue};
use vstd::prelude::*;

use crate::text;

verus! {

/// `HeaderMap` of `http`, as `axum` re-exports it: a request's headers, values by name.
#[verifier::external_type_specification]
#[verifier::external_body]
#[verifier::reject_recursive_types(T)]
pub struct ExHeaderMap<T>(HeaderMap<T>);

/// `HeaderValue` of `http`, the values that a `HeaderMap` of requests holds.
#[verifier::external_type_specification]
#[verifier::external_body]
pub struct ExHeaderValue(HeaderValue);

/// What a `HeaderMap` holds: under each header's name in small letters, the bytes of
/// the first value it has.
pub uninterp spec fn header_contents(headers: HeaderMap) -> Map<Seq<char>, Seq<u8>>;

/// A byte that stands for itself in a header's text: visible ASCII, space or tab.
pub open spec fn is_visible(b: u8) -> bool {
    32 <= b < 127 || b == 9
}

/// The text of bytes that are all ASCII.
pub open spec fn ascii_text(bytes: Seq<u8>) -> Seq<char> {
    Seq::new(bytes.len(), |i: int| bytes[i] as char)
}

/// `HeaderMap::get`: the bytes of the first value under `name`, whatever the case of its
/// letters; `None` exactly where no header has that name.
#[verifier::external_body]
fn first_value(headers: &HeaderMap, name: &str) -> (r: Option<Vec<u8>>)
    ensures
        match r {
            Some(bytes) => header_contents(*headers).contains_key(text::lowered(name@)) && bytes@
                == header_contents(*headers)[text::lowered(name@)],
            None => !header_contents(*headers).contains_key(text::lowered(name@)),
        },
{
    headers.get(name).map(|value| value.as_bytes().to_vec())
}

/// What reading a header by name comes to.
#[derive(Debug, Clone, PartialEq, Eq)]
pub enum HeaderText {
    /// No header of that name.
    Absent,
    /// A header whose value is not plain ASCII text.
    NotAscii,
    /// The text of the header's first value.
    Text(String),
}

/// What a `HeaderText` holds.
#[verifier::ext_equal]
pub enum HeaderTextValue {
    Absent,
    NotAscii,
    Text(Seq<char>),
}

impl View for HeaderText {
    type V = HeaderTextValue;

    open spec fn view(&self) -> HeaderTextValue {
        match *self {
            HeaderText::Absent => HeaderTextValue::Absent,
            HeaderText::NotAscii => HeaderTextValue::NotAscii,
            HeaderText::Text(s) => HeaderTextValue::Text(s@),
        }
    }
}

/// Whether a value is plain text: every byte stands for itself.
pub open spec fn is_plain(bytes: Seq<u8>) -> bool {
    forall|i: int| 0 <= i < bytes.len() ==> is_visible(#[trigger] bytes[i])
}

/// What the header `name` reads as, given what the headers hold.
pub open spec fn header_text(contents: Map<Seq<char>, Seq<u8>>, name: Seq<char>) -> HeaderTextValue {
    let key = text::lowered(name);
    if !contents.contains_key(key) {
        HeaderTextValue::Absent
    } else if is_plain(contents[key]) {
        HeaderTextValue::Text(ascii_text(contents[key]))
    } else {
        HeaderTextValue::NotAscii
    }
}

fn plain_text(bytes: &Vec<u8>) -> (r: Option<String>)
    ensures
        match r {
            Some(s) => is_plain(bytes@) && s@ == ascii_text(bytes@),
            None => !is_plain(bytes@),
        },
{
    let mut out = String::new();
    let mut i: usize = 0;
    while i < bytes.len()
        invariant
            i <= bytes.len(),
            is_plain(bytes@.take(i as int)),
            out@ == ascii_text(bytes@.take(i as int)),
        decreases bytes.len() - i,
    {
        let b = bytes[i];
        if !((32 <= b && b < 127) || b == 9) {
            assert(!is_visible(bytes@[i as int]));
            return None;
        }
        proof {
            assert(bytes@.take(i + 1) =~= bytes@.take(i as int).push(b));
            assert(ascii_text(bytes@.take(i + 1)) =~= ascii_text(bytes@.take(i as int)).push(
                b as char,
            ));
        }
        out.push(b as char);
        i = i + 1;
    }
    assert(bytes@.take(i as int) =~= bytes@);
    Some(out)
}

/// Reads the header `name`.
pub fn read_header(headers: &HeaderMap, name: &str) -> (r: HeaderText)
    ensures
        r@ == header_text(header_contents(*headers), name@),
{
    match first_value(headers, name) {
        None => HeaderText::Absent,
        Some(bytes) => match plain_text(&bytes) {
            None => HeaderText::NotAscii,
            Some(s) => HeaderText::Text(s),
        },
    }
}

/// A header is found under its name whatever the case of the letters, and is absent exactly
/// where there is none of that name.
pub proof fn law_names_know_no_case(contents: Map<Seq<char>, Seq<u8>>, name: Seq<char>)
    ensures
        header_text(contents, text::uppered(name)) == header_text(contents, name),
        header_text(contents, text::lowered(name)) == header_text(contents, name),
        header_text(contents, name) is Absent <==> !contents.contains_key(text::lowered(name)),
{
    text::law_lowering_changes_capitals_alone(name);
}

/// A value that is all printable ASCII, spaces and tabs is read character by character, and
/// any other is said not to be text.
pub proof fn law_plain_values_are_read_as_they_are(
    contents: Map<Seq<char>, Seq<u8>>,
    name: Seq<char>,
)
    requires
        contents.contains_key(text::lowered(name)),
    ensures
        ({
            let bytes = contents[text::lowered(name)];
            let plain = forall|i: int|
                0 <= i < bytes.len() ==> 32 <= (#[trigger] bytes[i]) <= 126 || bytes[i] == 9;
            &&& plain ==> (header_text(contents, name) matches HeaderTextValue::Text(t) && t.len()
                == bytes.len() && forall|i: int|
                0 <= i < bytes.len() ==> (#[trigger] t[i]) as u32 == bytes[i])
            &&& !plain ==> header_text(contents, name) is NotAscii
        }),
{
    let bytes = contents[text::lowered(name)];
    if forall|i: int|
        0 <= i < bytes.len() ==> 32 <= (#[trigger] bytes[i]) <= 126 || bytes[i] == 9 {
        assert(is_plain(bytes));
    } else {
        let i = choose|i: int|
            0 <= i < bytes.len() && !(32 <= (#[trigger] bytes[i]) <= 126 || bytes[i] == 9);
        assert(!is_visible(bytes[i]));
    }
}

/// What is said of a value is said of what it holds: every field and every case stands
/// under its own name, and nothing is left out.
pub proof fn law_views_say_what_the_values_hold(
    header_text: HeaderText,
)
    ensures
        match header_text {
            HeaderText::Absent => header_text@ == HeaderTextValue::Absent,
            HeaderText::NotAscii => header_text@ == HeaderTextValue::NotAscii,
            HeaderText::Text(s) => header_text@ == HeaderTextValue::Text(s@),
        },
{
}

} // verus!
