//! The `search` and `get` actions: their requests and responses.
//!
//! A search is filtered in one of two ways. The structured parameters `from`, `subject`,
//! `text` and `since` are compiled into IMAP search keys, all of which have to hold; or
//! `query` gives IMAP search keys as they are. A request with both is refused, because
//! whichever were dropped would be dropped unseen. A request with neither means everything.
//!
//! Every row that is returned costs a whole fetch, so their number is bounded, and the
//! response says where more matched than it carries.

use vstd::prelude::*;
use vstd::slice::slice_subrange;

use crate::error;
use crate::error::{ErrorKind, GatewayError};
use crate::imap;
use crate::imap::{MessageSummary, SearchResults};
use crate::text;

verus! {

/// How many rows are returned where no limit is asked for.
pub const DEFAULT_SEARCH_LIMIT: usize = 10;

/// How many rows are returned at most.
pub const MAX_SEARCH_LIMIT: usize = 50;

/// The search key that every message matches.
pub const ALL_SEARCH_QUERY: &'static str = "ALL";

// ---------------------------------------------------------------------------
// Requests
// ---------------------------------------------------------------------------

/// A request to search a mailbox.
#[derive(Debug, Clone, PartialEq, Eq)]
pub struct SearchRequest {
    /// The mailbox.
    pub folder: Option<String>,
    /// IMAP search keys.
    pub query: Option<String>,
    /// Text in the sender.
    pub from: Option<String>,
    /// Text in the subject.
    pub subject: Option<String>,
    /// Text anywhere in the message.
    pub text: Option<String>,
    /// The first day, as `YYYY-MM-DD`.
    pub since: Option<String>,
    /// How many rows to return.
    pub limit: Option<usize>,
}

/// What a `SearchRequest` holds.
#[verifier::ext_equal]
pub struct SearchValue {
    pub folder: Option<Seq<char>>,
    pub query: Option<Seq<char>>,
    pub from: Option<Seq<char>>,
    pub subject: Option<Seq<char>>,
    pub text: Option<Seq<char>>,
    pub since: Option<Seq<char>>,
    pub limit: Option<usize>,
}

impl DeepView for SearchRequest {
    type V = SearchValue;

    open spec fn deep_view(&self) -> SearchValue {
        SearchValue {
            folder: self.folder.deep_view(),
            query: self.query.deep_view(),
            from: self.from.deep_view(),
            subject: self.subject.deep_view(),
            text: self.text.deep_view(),
            since: self.since.deep_view(),
            limit: self.limit,
        }
    }
}

impl Default for SearchRequest {
    fn default() -> (r: Self)
        ensures
            r.deep_view() == (SearchValue {
                folder: None,
                query: None,
                from: None,
                subject: None,
                text: None,
                since: None,
                limit: None,
            }),
    {
        SearchRequest {
            folder: None,
            query: None,
            from: None,
            subject: None,
            text: None,
            since: None,
            limit: None,
        }
    }
}

/// A request to fetch a message.
#[derive(Debug, Clone, PartialEq, Eq)]
pub struct GetRequest {
    /// The mailbox.
    pub folder: Option<String>,
    /// The UID of the message.
    pub uid: u32,
}

/// The mailbox that a request means.
pub open spec fn folder_of(folder: Option<Seq<char>>) -> Seq<char> {
    match folder {
        Some(f) => f,
        None => imap::DEFAULT_MAILBOX@,
    }
}

fn folder_or_default(folder: &Option<String>) -> (r: &str)
    ensures
        r@ == folder_of(folder.deep_view()),
{
    match folder {
        Some(f) => f.as_str(),
        None => imap::DEFAULT_MAILBOX,
    }
}

impl GetRequest {
    /// The mailbox that holds the message.
    pub fn mailbox(&self) -> (r: &str)
        ensures
            r@ == folder_of(self.folder.deep_view()),
    {
        folder_or_default(&self.folder)
    }
}

// ---------------------------------------------------------------------------
// Search keys as they are
// ---------------------------------------------------------------------------

/// The words that a search key can begin with.
pub open spec fn is_search_key(w: Seq<char>) -> bool {
    ||| w == "ALL"@
    ||| w == "ANSWERED"@
    ||| w == "BCC"@
    ||| w == "BEFORE"@
    ||| w == "BODY"@
    ||| w == "CC"@
    ||| w == "DELETED"@
    ||| w == "DRAFT"@
    ||| w == "FLAGGED"@
    ||| w == "FROM"@
    ||| w == "HEADER"@
    ||| w == "KEYWORD"@
    ||| w == "LARGER"@
    ||| w == "NEW"@
    ||| w == "NOT"@
    ||| w == "OLD"@
    ||| w == "OLDER"@
    ||| w == "ON"@
    ||| w == "OR"@
    ||| w == "RECENT"@
    ||| w == "SEEN"@
    ||| w == "SENTBEFORE"@
    ||| w == "SENTON"@
    ||| w == "SENTSINCE"@
    ||| w == "SINCE"@
    ||| w == "SMALLER"@
    ||| w == "SUBJECT"@
    ||| w == "TEXT"@
    ||| w == "TO"@
    ||| w == "UID"@
    ||| w == "UNANSWERED"@
    ||| w == "UNDELETED"@
    ||| w == "UNDRAFT"@
    ||| w == "UNFLAGGED"@
    ||| w == "UNKEYWORD"@
    ||| w == "UNSEEN"@
    ||| w == "YOUNGER"@
}

fn search_key(w: &str) -> (r: bool)
    ensures
        r == is_search_key(w@),
{
    text::same(w, "ALL") || text::same(w, "ANSWERED") || text::same(w, "BCC") || text::same(
        w,
        "BEFORE",
    ) || text::same(w, "BODY") || text::same(w, "CC") || text::same(w, "DELETED") || text::same(
        w,
        "DRAFT",
    ) || text::same(w, "FLAGGED") || text::same(w, "FROM") || text::same(w, "HEADER")
        || text::same(w, "KEYWORD") || text::same(w, "LARGER") || text::same(w, "NEW")
        || text::same(w, "NOT") || text::same(w, "OLD") || text::same(w, "OLDER") || text::same(
        w,
        "ON",
    ) || text::same(w, "OR") || text::same(w, "RECENT") || text::same(w, "SEEN") || text::same(
        w,
        "SENTBEFORE",
    ) || text::same(w, "SENTON") || text::same(w, "SENTSINCE") || text::same(w, "SINCE")
        || text::same(w, "SMALLER") || text::same(w, "SUBJECT") || text::same(w, "TEXT")
        || text::same(w, "TO") || text::same(w, "UID") || text::same(w, "UNANSWERED")
        || text::same(w, "UNDELETED") || text::same(w, "UNDRAFT") || text::same(w, "UNFLAGGED")
        || text::same(w, "UNKEYWORD") || text::same(w, "UNSEEN") || text::same(w, "YOUNGER")
}

/// What stands in `s` before the first white space.
pub open spec fn first_word(s: Seq<char>) -> Seq<char>
    decreases s.len(),
{
    if s.len() == 0 || text::is_space(s[0]) {
        Seq::empty()
    } else {
        seq![s[0]] + first_word(s.skip(1))
    }
}

/// A set of sequence numbers: digits, commas, colons and stars.
pub open spec fn is_sequence_set(s: Seq<char>) -> bool {
    forall|i: int|
        0 <= i < s.len() ==> text::is_digit(#[trigger] s[i]) || s[i] == ',' || s[i] == ':' || s[i]
            == '*'
}

/// A query that begins as a search key does: with one of the words, a sequence set or a
/// group.
pub open spec fn begins_as_key(query: Seq<char>) -> bool {
    let head = first_word(query);
    ||| is_search_key(text::uppered(head))
    ||| is_sequence_set(head)
    ||| (head.len() > 0 && head[0] == '(')
}

/// The error for a query that is no search key, quoted as `q`: it shows the query and
/// names the fix.
pub open spec fn no_search_key(q: Seq<char>) -> (ErrorKind, Seq<char>) {
    (
        ErrorKind::BadRequest,
        "invalid criteria: "@ + q
            + " — bare words are not IMAP SEARCH keys. Did you mean FROM "@ + q + " or TEXT "@ + q
            + "?"@,
    )
}

fn head_len(s: &[char]) -> (r: usize)
    ensures
        r <= s.len(),
        s@.take(r as int) == first_word(s@),
{
    let mut i: usize = 0;
    assert(s@.skip(0) =~= s@);
    assert(s@.take(0) + first_word(s@) =~= first_word(s@));
    while i < s.len() && !text::space(s[i])
        invariant
            i <= s.len(),
            s@.take(i as int) + first_word(s@.skip(i as int)) == first_word(s@),
        decreases s.len() - i,
    {
        proof {
            assert(s@.skip(i as int).skip(1) =~= s@.skip(i + 1));
            assert(s@.take(i + 1) =~= s@.take(i as int).push(s@[i as int]));
            assert(s@.take(i as int) + (seq![s@[i as int]] + first_word(s@.skip(i + 1)))
                =~= s@.take(i + 1) + first_word(s@.skip(i + 1)));
        }
        i = i + 1;
    }
    assert(first_word(s@.skip(i as int)) =~= Seq::empty());
    assert(s@.take(i as int) =~= first_word(s@));
    i
}

fn sequence_set(s: &[char]) -> (r: bool)
    ensures
        r == is_sequence_set(s@),
{
    let mut i: usize = 0;
    while i < s.len()
        invariant
            i <= s.len(),
            forall|j: int|
                0 <= j < i ==> text::is_digit(#[trigger] s@[j]) || s@[j] == ',' || s@[j] == ':'
                    || s@[j] == '*',
        decreases s.len() - i,
    {
        let c = s[i];
        if !(('0' <= c && c <= '9') || c == ',' || c == ':' || c == '*') {
            return false;
        }
        i = i + 1;
    }
    true
}

fn accept_query(query: &[char]) -> (r: bool)
    ensures
        r == begins_as_key(query@),
{
    let head = slice_subrange(query, 0, head_len(query));
    search_key(text::from_chars(text::upper_chars(head).as_slice()).as_str()) || sequence_set(head)
        || (head.len() > 0 && head[0] == '(')
}

/// The error for a query that is no search key, given the query as it is quoted.
pub fn bare_words(quoted: &str) -> (r: GatewayError)
    ensures
        r@ == no_search_key(quoted@),
{
    let mut m = text::concat3(
        "invalid criteria: ",
        quoted,
        " — bare words are not IMAP SEARCH keys. Did you mean FROM ",
    );
    m.append(quoted);
    m.append(" or TEXT ");
    m.append(quoted);
    m.append("?");
    GatewayError::BadRequest(m)
}

// ---------------------------------------------------------------------------
// Structured parameters
// ---------------------------------------------------------------------------

/// A character that no quoted string of IMAP can hold.
pub open spec fn is_unquotable(c: char) -> bool {
    c == '\r' || c == '\n' || c == '\0'
}

/// The inside of a quoted string: `"` and `\` are escaped.
pub open spec fn escaped(s: Seq<char>) -> Seq<char>
    decreases s.len(),
{
    if s.len() == 0 {
        Seq::empty()
    } else if s[0] == '"' || s[0] == '\\' {
        seq!['\\', s[0]] + escaped(s.skip(1))
    } else {
        seq![s[0]] + escaped(s.skip(1))
    }
}

/// The search key `name` with the quoted string `value`.
pub open spec fn quoted_key(name: Seq<char>, value: Seq<char>) -> Seq<char> {
    name + " \""@ + escaped(value) + "\""@
}

/// The key that a parameter is compiled into: none where it is absent or blank.
pub open spec fn text_key(param: Seq<char>, name: Seq<char>, value: Option<Seq<char>>) -> Result<
    Option<Seq<char>>,
    (ErrorKind, Seq<char>),
> {
    match value {
        None => Ok(None),
        Some(v) => if text::is_blank(v) {
            Ok(None)
        } else if exists|i: int| 0 <= i < v.len() && is_unquotable(#[trigger] v[i]) {
            Err(
                (
                    ErrorKind::BadRequest,
                    "`"@ + param + "` must not contain line breaks or NUL"@,
                ),
            )
        } else {
            Ok(Some(quoted_key(name, v)))
        },
    }
}

/// Whether a year has a 29th of February.
pub open spec fn is_leap(year: nat) -> bool {
    year % 4 == 0 && (year % 100 != 0 || year % 400 == 0)
}

/// How many days a month has.
pub open spec fn days_in(year: nat, month: nat) -> nat {
    if month == 2 {
        if is_leap(year) {
            29
        } else {
            28
        }
    } else if month == 4 || month == 6 || month == 9 || month == 11 {
        30
    } else {
        31
    }
}

/// A month as IMAP names it.
pub open spec fn month_name(month: nat) -> Seq<char> {
    if month == 1 {
        "Jan"@
    } else if month == 2 {
        "Feb"@
    } else if month == 3 {
        "Mar"@
    } else if month == 4 {
        "Apr"@
    } else if month == 5 {
        "May"@
    } else if month == 6 {
        "Jun"@
    } else if month == 7 {
        "Jul"@
    } else if month == 8 {
        "Aug"@
    } else if month == 9 {
        "Sep"@
    } else if month == 10 {
        "Oct"@
    } else if month == 11 {
        "Nov"@
    } else {
        "Dec"@
    }
}

/// Year, month and day of the text `YYYY-MM-DD`, where it is a day of the calendar.
pub open spec fn calendar_day(s: Seq<char>) -> Option<(nat, nat, nat)> {
    let year = text::decimal_value(s.subrange(0, 4));
    let month = text::decimal_value(s.subrange(5, 7));
    let day = text::decimal_value(s.subrange(8, 10));
    if s.len() == 10 && s[4] == '-' && s[7] == '-' && text::is_decimal(s.subrange(0, 4))
        && text::is_decimal(s.subrange(5, 7)) && text::is_decimal(s.subrange(8, 10)) && 1 <= month
        <= 12 && 1 <= day <= days_in(year, month) {
        Some((year, month, day))
    } else {
        None
    }
}

/// A day as IMAP writes it. The year keeps its four digits.
pub open spec fn imap_date(s: Seq<char>) -> Option<Seq<char>> {
    match calendar_day(s) {
        Some(d) => Some(
            text::decimal(d.2) + "-"@ + month_name(d.1) + "-"@ + s.subrange(0, 4),
        ),
        None => None,
    }
}

/// The key that `since` is compiled into.
pub open spec fn since_key(value: Option<Seq<char>>) -> Result<
    Option<Seq<char>>,
    (ErrorKind, Seq<char>),
> {
    match value {
        None => Ok(None),
        Some(v) => if text::is_blank(v) {
            Ok(None)
        } else {
            match imap_date(text::trimmed(v)) {
                Some(d) => Ok(Some("SINCE "@ + d)),
                None => Err(
                    (
                        ErrorKind::BadRequest,
                        "`since` must be a date of the form YYYY-MM-DD"@,
                    ),
                ),
            }
        },
    }
}

/// `keys` with `key` behind them, if there is one.
pub open spec fn and_key(keys: Seq<Seq<char>>, key: Option<Seq<char>>) -> Seq<Seq<char>> {
    match key {
        Some(k) => keys.push(k),
        None => keys,
    }
}

/// The keys that the structured parameters are compiled into.
pub open spec fn structured_keys(r: SearchValue) -> Result<
    Seq<Seq<char>>,
    (ErrorKind, Seq<char>),
> {
    match text_key("from"@, "FROM"@, r.from) {
        Err(e) => Err(e),
        Ok(from) => match text_key("subject"@, "SUBJECT"@, r.subject) {
            Err(e) => Err(e),
            Ok(subject) => match text_key("text"@, "TEXT"@, r.text) {
                Err(e) => Err(e),
                Ok(words) => match since_key(r.since) {
                    Err(e) => Err(e),
                    Ok(since) => Ok(
                        and_key(
                            and_key(and_key(and_key(Seq::empty(), from), subject), words),
                            since,
                        ),
                    ),
                },
            },
        },
    }
}

/// The search key to send for a request.
pub open spec fn search_query(r: SearchValue) -> Result<Seq<char>, (ErrorKind, Seq<char>)> {
    match structured_keys(r) {
        Err(e) => Err(e),
        Ok(keys) => {
            let raw = match r.query {
                Some(q) => text::trimmed(q),
                None => Seq::empty(),
            };
            if raw.len() == 0 {
                if keys.len() == 0 {
                    Ok(ALL_SEARCH_QUERY@)
                } else {
                    Ok(text::join(keys, " "@))
                }
            } else if keys.len() > 0 {
                Err(
                    (
                        ErrorKind::BadRequest,
                        "`query` cannot be combined with `from`, `subject`, `text` or `since`"@,
                    ),
                )
            } else if begins_as_key(raw) {
                Ok(raw)
            } else {
                Err(no_search_key(text::quoted_text(raw)))
            }
        },
    }
}

/// How many rows a request gets at most.
pub open spec fn row_limit(limit: Option<usize>) -> usize {
    match limit {
        None => DEFAULT_SEARCH_LIMIT,
        Some(n) => if n > MAX_SEARCH_LIMIT {
            MAX_SEARCH_LIMIT
        } else {
            n
        },
    }
}

fn quotable(s: &[char]) -> (r: bool)
    ensures
        r == !(exists|i: int| 0 <= i < s.len() && is_unquotable(#[trigger] s@[i])),
{
    let mut i: usize = 0;
    while i < s.len()
        invariant
            i <= s.len(),
            forall|j: int| 0 <= j < i ==> !is_unquotable(#[trigger] s@[j]),
        decreases s.len() - i,
    {
        if s[i] == '\r' || s[i] == '\n' || s[i] == '\0' {
            return false;
        }
        i = i + 1;
    }
    true
}

fn quote_key(name: &str, value: &[char]) -> (r: String)
    ensures
        r@ == quoted_key(name@, value@),
{
    let mut out = text::concat(name, " \"");
    let ghost head = out@;
    let mut i: usize = 0;
    assert(value@.skip(0) =~= value@);
    while i < value.len()
        invariant
            i <= value.len(),
            out@ + escaped(value@.skip(i as int)) == head + escaped(value@),
        decreases value.len() - i,
    {
        let c = value[i];
        let ghost before = out@;
        assert(value@.skip(i as int).skip(1) =~= value@.skip(i + 1));
        if c == '"' || c == '\\' {
            out.push('\\');
        }
        out.push(c);
        assert(out@ + escaped(value@.skip(i + 1)) =~= before + escaped(value@.skip(i as int)));
        i = i + 1;
    }
    assert(out@ =~= head + escaped(value@));
    out.append("\"");
    out
}

fn compile_text(param: &str, name: &str, value: &Option<String>) -> (r: Result<
    Option<String>,
    GatewayError,
>)
    ensures
        error::outcome(r) == text_key(param@, name@, value.deep_view()),
{
    match value {
        None => Ok(None),
        Some(v) => {
            if text::blank(v.as_str()) {
                return Ok(None);
            }
            let chars = text::to_chars(v.as_str());
            if !quotable(chars.as_slice()) {
                return Err(
                    GatewayError::BadRequest(
                        text::concat3("`", param, "` must not contain line breaks or NUL"),
                    ),
                );
            }
            Ok(Some(quote_key(name, chars.as_slice())))
        },
    }
}

fn leap(year: u64) -> (r: bool)
    ensures
        r == is_leap(year as nat),
{
    year % 4 == 0 && (year % 100 != 0 || year % 400 == 0)
}

fn month_days(year: u64, month: u64) -> (r: u64)
    ensures
        r == days_in(year as nat, month as nat),
{
    if month == 2 {
        if leap(year) {
            29
        } else {
            28
        }
    } else if month == 4 || month == 6 || month == 9 || month == 11 {
        30
    } else {
        31
    }
}

fn name_of_month(month: u64) -> (r: &'static str)
    ensures
        r@ == month_name(month as nat),
{
    if month == 1 {
        "Jan"
    } else if month == 2 {
        "Feb"
    } else if month == 3 {
        "Mar"
    } else if month == 4 {
        "Apr"
    } else if month == 5 {
        "May"
    } else if month == 6 {
        "Jun"
    } else if month == 7 {
        "Jul"
    } else if month == 8 {
        "Aug"
    } else if month == 9 {
        "Sep"
    } else if month == 10 {
        "Oct"
    } else if month == 11 {
        "Nov"
    } else {
        "Dec"
    }
}

proof fn lemma_small_decimal(s: Seq<char>)
    requires
        text::is_decimal(s),
    ensures
        s.len() == 1 ==> text::decimal_value(s) <= 9,
        s.len() == 2 ==> text::decimal_value(s) <= 99,
        s.len() == 3 ==> text::decimal_value(s) <= 999,
        s.len() == 4 ==> text::decimal_value(s) <= 9999,
    decreases s.len(),
{
    assert(text::is_digit(s[s.len() - 1]));
    if 1 < s.len() <= 4 {
        assert forall|i: int| 0 <= i < s.drop_last().len() implies text::is_digit(
            #[trigger] s.drop_last()[i],
        ) by {
            assert(s.drop_last()[i] == s[i]);
        }
        lemma_small_decimal(s.drop_last());
    } else if s.len() == 1 {
        assert(text::decimal_value(s.drop_last()) == 0);
    }
}

fn read_number(s: &[char]) -> (r: Option<u64>)
    requires
        1 <= s.len() <= 4,
    ensures
        match r {
            Some(n) => text::is_decimal(s@) && n == text::decimal_value(s@),
            None => !text::is_decimal(s@),
        },
{
    proof {
        if text::is_decimal(s@) {
            lemma_small_decimal(s@);
        }
    }
    text::parse_decimal(s, 9999)
}

fn compile_date(s: &[char]) -> (r: Option<String>)
    ensures
        r.deep_view() == imap_date(s@),
{
    if s.len() != 10 || s[4] != '-' || s[7] != '-' {
        return None;
    }
    let year = match read_number(slice_subrange(s, 0, 4)) {
        Some(n) => n,
        None => {
            return None;
        },
    };
    let month = match read_number(slice_subrange(s, 5, 7)) {
        Some(n) => n,
        None => {
            return None;
        },
    };
    let day = match read_number(slice_subrange(s, 8, 10)) {
        Some(n) => n,
        None => {
            return None;
        },
    };
    if month < 1 || month > 12 || day < 1 || day > month_days(year, month) {
        return None;
    }
    let mut out = text::to_decimal(day);
    out.append("-");
    out.append(name_of_month(month));
    out.append("-");
    out.append(text::from_chars(slice_subrange(s, 0, 4)).as_str());
    Some(out)
}

fn compile_since(value: &Option<String>) -> (r: Result<Option<String>, GatewayError>)
    ensures
        error::outcome(r) == since_key(value.deep_view()),
{
    match value {
        None => Ok(None),
        Some(v) => {
            let chars = text::to_chars(v.as_str());
            let t = text::trim_chars(chars.as_slice());
            if t.len() == 0 {
                return Ok(None);
            }
            match compile_date(t) {
                Some(d) => Ok(Some(text::concat("SINCE ", d.as_str()))),
                None => Err(
                    GatewayError::BadRequest(
                        "`since` must be a date of the form YYYY-MM-DD".to_owned(),
                    ),
                ),
            }
        },
    }
}

fn push_key(keys: &mut Vec<String>, key: Option<String>)
    ensures
        final(keys).deep_view() == and_key(old(keys).deep_view(), key.deep_view()),
{
    let ghost before = keys.deep_view();
    if let Some(k) = key {
        keys.push(k);
        assert(keys.deep_view() =~= before.push(k@));
    }
}

impl SearchRequest {
    fn compile(&self) -> (r: Result<Vec<String>, GatewayError>)
        ensures
            error::outcome(r) == structured_keys(self.deep_view()),
    {
        let from = match compile_text("from", "FROM", &self.from) {
            Ok(k) => k,
            Err(e) => {
                return Err(e);
            },
        };
        let subject = match compile_text("subject", "SUBJECT", &self.subject) {
            Ok(k) => k,
            Err(e) => {
                return Err(e);
            },
        };
        let words = match compile_text("text", "TEXT", &self.text) {
            Ok(k) => k,
            Err(e) => {
                return Err(e);
            },
        };
        let since = match compile_since(&self.since) {
            Ok(k) => k,
            Err(e) => {
                return Err(e);
            },
        };
        let mut keys: Vec<String> = Vec::new();
        assert(keys.deep_view() =~= Seq::empty());
        push_key(&mut keys, from);
        push_key(&mut keys, subject);
        push_key(&mut keys, words);
        push_key(&mut keys, since);
        Ok(keys)
    }

    /// The search key to send: the structured parameters compiled, or the query as it is
    /// once it begins as a search key does, or everything. Only the query's first word is
    /// looked at; the server is the authority on the rest.
    pub fn validated_query(&self) -> (r: Result<String, GatewayError>)
        ensures
            error::outcome(r) == search_query(self.deep_view()),
    {
        let keys = match self.compile() {
            Ok(k) => k,
            Err(e) => {
                return Err(e);
            },
        };
        let chars = match &self.query {
            Some(q) => text::to_chars(q.as_str()),
            None => Vec::new(),
        };
        let raw = text::trim_chars(chars.as_slice());
        proof {
            assert(text::trimmed(Seq::<char>::empty()) =~= Seq::empty());
        }
        if raw.len() == 0 {
            return if keys.len() == 0 {
                Ok(ALL_SEARCH_QUERY.to_owned())
            } else {
                Ok(text::join_texts(&keys, " "))
            };
        }
        if keys.len() > 0 {
            return Err(
                GatewayError::BadRequest(
                    "`query` cannot be combined with `from`, `subject`, `text` or `since`".to_owned(),
                ),
            );
        }
        let query = text::from_chars(raw);
        if accept_query(raw) {
            Ok(query)
        } else {
            Err(bare_words(text::quoted(query.as_str()).as_str()))
        }
    }

    /// How many rows to return at most.
    pub fn effective_limit(&self) -> (r: usize)
        ensures
            r == row_limit(self.limit),
    {
        match self.limit {
            None => DEFAULT_SEARCH_LIMIT,
            Some(n) => if n > MAX_SEARCH_LIMIT {
                MAX_SEARCH_LIMIT
            } else {
                n
            },
        }
    }

    /// The mailbox to search.
    pub fn mailbox(&self) -> (r: &str)
        ensures
            r@ == folder_of(self.folder.deep_view()),
    {
        folder_or_default(&self.folder)
    }
}

/// What is to be done for a search.
#[derive(Debug, Clone, PartialEq, Eq)]
pub struct SearchPlan {
    pub mailbox: String,
    pub query: String,
    pub limit: usize,
}

impl DeepView for SearchPlan {
    type V = (Seq<char>, Seq<char>, usize);

    open spec fn deep_view(&self) -> (Seq<char>, Seq<char>, usize) {
        (self.mailbox@, self.query@, self.limit)
    }
}

/// What is to be done for a request.
pub open spec fn search_plan(r: SearchValue) -> Result<
    (Seq<char>, Seq<char>, usize),
    (ErrorKind, Seq<char>),
> {
    match search_query(r) {
        Ok(query) => Ok((folder_of(r.folder), query, row_limit(r.limit))),
        Err(e) => Err(e),
    }
}

/// The error for a request whose body could not be read, with the reason.
pub fn body_error(why: &str) -> (r: GatewayError)
    ensures
        r@ == (ErrorKind::BadRequest, "invalid JSON request body: "@ + why@),
{
    GatewayError::BadRequest(text::concat("invalid JSON request body: ", why))
}

/// What is to be done for a request: the mailbox to select, the keys to search for and
/// how many of the messages found to fetch.
pub fn plan_search(request: &SearchRequest) -> (r: Result<SearchPlan, GatewayError>)
    ensures
        error::outcome(r) == search_plan(request.deep_view()),
{
    match request.validated_query() {
        Ok(query) => Ok(
            SearchPlan {
                mailbox: request.mailbox().to_owned(),
                query,
                limit: request.effective_limit(),
            },
        ),
        Err(e) => Err(e),
    }
}

// ---------------------------------------------------------------------------
// Responses
// ---------------------------------------------------------------------------

/// The response to a search.
#[derive(Debug, Clone, PartialEq, Eq)]
pub struct SearchResponse {
    /// The newest first, no more than the limit.
    pub results: Vec<MessageSummary>,
    /// How many messages matched.
    pub total: usize,
    /// Whether more matched than `results` carries.
    pub truncated: bool,
}

/// Whether more matched than are shown.
pub open spec fn is_truncated(total: nat, shown: nat) -> bool {
    total > shown
}

impl SearchResponse {
    /// The response for what was found.
    pub fn from_results(found: SearchResults) -> (r: Self)
        ensures
            r.results == found.summaries,
            r.total == found.total,
            r.truncated == is_truncated(found.total as nat, found.summaries@.len()),
    {
        SearchResponse {
            truncated: found.total > found.summaries.len(),
            total: found.total,
            results: found.summaries,
        }
    }
}

// ---------------------------------------------------------------------------
// Laws
// ---------------------------------------------------------------------------

/// No request gets more rows than the cap, and asking for more is no error; any number up
/// to the cap, 0 among them, is taken literally.
pub proof fn law_rows_are_bounded(limit: Option<usize>)
    ensures
        row_limit(limit) <= MAX_SEARCH_LIMIT,
        limit matches Some(n) ==> (n <= MAX_SEARCH_LIMIT ==> row_limit(limit) == n),
{
}

/// A request that says nothing of what it looks for, in whichever way, looks for
/// everything.
pub proof fn law_nothing_means_everything(r: SearchValue)
    requires
        r.query matches Some(q) ==> text::is_blank(q),
        r.from matches Some(v) ==> text::is_blank(v),
        r.subject matches Some(v) ==> text::is_blank(v),
        r.text matches Some(v) ==> text::is_blank(v),
        r.since matches Some(v) ==> text::is_blank(v),
    ensures
        search_query(r) == Ok::<Seq<char>, (ErrorKind, Seq<char>)>(ALL_SEARCH_QUERY@),
{
}

/// A query and a structured parameter in one request are refused: neither is dropped
/// unseen.
pub proof fn law_two_filters_are_refused(r: SearchValue)
    requires
        r.query matches Some(q) && !text::is_blank(q),
        ({
            ||| r.from matches Some(v) && !text::is_blank(v)
            ||| r.subject matches Some(v) && !text::is_blank(v)
            ||| r.text matches Some(v) && !text::is_blank(v)
            ||| r.since matches Some(v) && !text::is_blank(v)
        }),
    ensures
        search_query(r) matches Err(e) && e.0 == ErrorKind::BadRequest,
{
}

/// How IMAP reads a quoted string, from behind the opening quote: what it holds, and what
/// is left behind the closing quote. A `\` stands for the character behind it.
pub open spec fn read_quoted(s: Seq<char>) -> Option<(Seq<char>, Seq<char>)>
    decreases s.len(),
{
    if s.len() == 0 {
        None
    } else if s[0] == '"' {
        Some((Seq::empty(), s.skip(1)))
    } else if s[0] == '\\' {
        if s.len() < 2 {
            None
        } else {
            match read_quoted(s.skip(2)) {
                Some(r) => Some((seq![s[1]] + r.0, r.1)),
                None => None,
            }
        }
    } else {
        match read_quoted(s.skip(1)) {
            Some(r) => Some((seq![s[0]] + r.0, r.1)),
            None => None,
        }
    }
}

/// A value that is quoted for IMAP is read back as it was, and ends where it should:
/// whatever it holds, it cannot reach into the rest of the command.
pub proof fn law_quoting_is_safe(value: Seq<char>, rest: Seq<char>)
    ensures
        read_quoted(escaped(value) + seq!['"'] + rest) == Some((value, rest)),
    decreases value.len(),
{
    let s = escaped(value) + seq!['"'] + rest;
    if value.len() == 0 {
        assert(s.skip(1) =~= rest);
        assert(value =~= Seq::empty());
    } else {
        law_quoting_is_safe(value.skip(1), rest);
        let tail = escaped(value.skip(1)) + seq!['"'] + rest;
        assert(seq![value[0]] + value.skip(1) =~= value);
        if value[0] == '"' || value[0] == '\\' {
            assert(s.skip(2) =~= tail);
        } else {
            assert(s.skip(1) =~= tail);
        }
    }
}

/// Without a limit a search gives ten rows at most; with one, as many as it says, up to
/// fifty. Without a folder it is the inbox that is meant, and with one that folder.
pub proof fn law_defaults_and_caps(limit: Option<usize>, folder: Option<Seq<char>>)
    ensures
        row_limit(None) == 10,
        limit matches Some(n) ==> row_limit(limit) == if n < 50 {
            n
        } else {
            50
        },
        folder_of(None) == "INBOX"@,
        folder matches Some(f) ==> folder_of(folder) == f,
{
}

/// A response says that it is cut short exactly where fewer rows are shown than matched.
pub proof fn law_a_cut_is_told(total: nat, shown: nat)
    requires
        shown <= total,
    ensures
        is_truncated(total, shown) <==> shown != total,
{
}

/// A search is carried out in the folder, with the key and with the limit that its own
/// request says, and it is carried out exactly where its request has a key.
pub proof fn law_the_plan_follows_the_request(r: SearchValue)
    ensures
        search_plan(r) is Ok <==> search_query(r) is Ok,
        search_plan(r) matches Ok(p) ==> p.0 == folder_of(r.folder) && search_query(r) == Ok::<
            Seq<char>,
            (ErrorKind, Seq<char>),
        >(p.1) && p.2 == row_limit(r.limit),
        search_plan(r) matches Err(e) ==> search_query(r) == Err::<
            Seq<char>,
            (ErrorKind, Seq<char>),
        >(e),
{
}

/// No filter at all.
pub open spec fn no_filter() -> SearchValue {
    SearchValue {
        folder: None,
        query: None,
        from: None,
        subject: None,
        text: None,
        since: None,
        limit: None,
    }
}

/// A text that can be looked for: it is not blank and holds neither line breaks nor NUL.
pub open spec fn can_be_looked_for(v: Seq<char>) -> bool {
    !text::is_blank(v) && !v.contains('\r') && !v.contains('\n') && !v.contains('\0')
}

proof fn lemma_quotable(v: Seq<char>)
    requires
        can_be_looked_for(v),
    ensures
        !(exists|i: int| 0 <= i < v.len() && is_unquotable(#[trigger] v[i])),
{
    if exists|i: int| 0 <= i < v.len() && is_unquotable(#[trigger] v[i]) {
        let i = choose|i: int| 0 <= i < v.len() && is_unquotable(#[trigger] v[i]);
        assert(v.contains(v[i]));
    }
}

/// Each parameter alone is looked for under its own key, as one quoted string from which
/// IMAP reads the parameter back, all of it and nothing else.
pub proof fn law_each_filter_has_its_own_key(v: Seq<char>)
    requires
        can_be_looked_for(v),
    ensures
        search_query(SearchValue { from: Some(v), ..no_filter() }) == Ok::<
            Seq<char>,
            (ErrorKind, Seq<char>),
        >("FROM \""@ + escaped(v) + "\""@),
        search_query(SearchValue { subject: Some(v), ..no_filter() }) == Ok::<
            Seq<char>,
            (ErrorKind, Seq<char>),
        >("SUBJECT \""@ + escaped(v) + "\""@),
        search_query(SearchValue { text: Some(v), ..no_filter() }) == Ok::<
            Seq<char>,
            (ErrorKind, Seq<char>),
        >("TEXT \""@ + escaped(v) + "\""@),
        read_quoted(escaped(v) + "\""@) == Some((v, Seq::<char>::empty())),
{
    lemma_quotable(v);
    law_quoting_is_safe(v, Seq::empty());
    reveal_strlit("\"");
    assert("\""@ =~= seq!['"']);
    assert(escaped(v) + seq!['"'] + Seq::<char>::empty() =~= escaped(v) + "\""@);
    reveal_strlit(" \"");
    reveal_strlit("FROM");
    reveal_strlit("FROM \"");
    reveal_strlit("SUBJECT");
    reveal_strlit("SUBJECT \"");
    reveal_strlit("TEXT");
    reveal_strlit("TEXT \"");
    assert("FROM"@ + " \""@ =~= "FROM \""@);
    assert("SUBJECT"@ + " \""@ =~= "SUBJECT \""@);
    assert("TEXT"@ + " \""@ =~= "TEXT \""@);
    let k1 = quoted_key("FROM"@, v);
    let k2 = quoted_key("SUBJECT"@, v);
    let k3 = quoted_key("TEXT"@, v);
    assert(Seq::<Seq<char>>::empty().push(k1)[0] == k1);
    assert(Seq::<Seq<char>>::empty().push(k2)[0] == k2);
    assert(Seq::<Seq<char>>::empty().push(k3)[0] == k3);
}

/// Filters add up: a search by several has the key of the one behind the keys of the
/// others, so that all have to hold and none is dropped.
pub proof fn law_filters_add_up(r: SearchValue, base: Seq<char>)
    requires
        r.query is None,
        search_query(r) == Ok::<Seq<char>, (ErrorKind, Seq<char>)>(base),
        r.from matches Some(v) ==> can_be_looked_for(v),
        r.subject matches Some(v) ==> can_be_looked_for(v),
        r.text matches Some(v) ==> can_be_looked_for(v),
        r.from is Some || r.subject is Some || r.text is Some,
        r.since is None,
    ensures
        forall|v: Seq<char>|
            r.subject is None && r.text is None && can_be_looked_for(v) ==> #[trigger] search_query(
                SearchValue { subject: Some(v), ..r },
            ) == Ok::<Seq<char>, (ErrorKind, Seq<char>)>(
                base + " "@ + "SUBJECT \""@ + escaped(v) + "\""@,
            ),
        forall|v: Seq<char>|
            r.text is None && can_be_looked_for(v) ==> #[trigger] search_query(
                SearchValue { text: Some(v), ..r },
            ) == Ok::<Seq<char>, (ErrorKind, Seq<char>)>(
                base + " "@ + "TEXT \""@ + escaped(v) + "\""@,
            ),
        forall|d: Seq<char>|
            !text::is_blank(d) && imap_date(text::trimmed(d)) is Some ==> #[trigger] search_query(
                SearchValue { since: Some(d), ..r },
            ) == Ok::<Seq<char>, (ErrorKind, Seq<char>)>(
                base + " "@ + "SINCE "@ + imap_date(text::trimmed(d))->0,
            ),
{
    if let Some(v) = r.from {
        lemma_quotable(v);
    }
    if let Some(v) = r.subject {
        lemma_quotable(v);
    }
    if let Some(v) = r.text {
        lemma_quotable(v);
    }
    reveal_strlit(" \"");
    reveal_strlit("SUBJECT");
    reveal_strlit("SUBJECT \"");
    reveal_strlit("TEXT");
    reveal_strlit("TEXT \"");
    assert("SUBJECT"@ + " \""@ =~= "SUBJECT \""@);
    assert("TEXT"@ + " \""@ =~= "TEXT \""@);
    let keys = structured_keys(r)->Ok_0;
    assert(keys.len() > 0);
    assert(base == text::join(keys, " "@));
    assert forall|v: Seq<char>|
        r.subject is None && r.text is None && can_be_looked_for(v) implies #[trigger] search_query(
        SearchValue { subject: Some(v), ..r },
    ) == Ok::<Seq<char>, (ErrorKind, Seq<char>)>(
        base + " "@ + "SUBJECT \""@ + escaped(v) + "\""@,
    ) by {
        lemma_quotable(v);
        let k = quoted_key("SUBJECT"@, v);
        text::law_joining_adds_separators_alone(keys, k, " "@);
        assert(structured_keys(SearchValue { subject: Some(v), ..r }) == Ok::<
            Seq<Seq<char>>,
            (ErrorKind, Seq<char>),
        >(keys.push(k)));
        assert(base + " "@ + k =~= base + " "@ + "SUBJECT \""@ + escaped(v) + "\""@);
    }
    assert forall|v: Seq<char>|
        r.text is None && can_be_looked_for(v) implies #[trigger] search_query(
        SearchValue { text: Some(v), ..r },
    ) == Ok::<Seq<char>, (ErrorKind, Seq<char>)>(
        base + " "@ + "TEXT \""@ + escaped(v) + "\""@,
    ) by {
        lemma_quotable(v);
        let k = quoted_key("TEXT"@, v);
        text::law_joining_adds_separators_alone(keys, k, " "@);
        assert(structured_keys(SearchValue { text: Some(v), ..r }) == Ok::<
            Seq<Seq<char>>,
            (ErrorKind, Seq<char>),
        >(keys.push(k)));
        assert(base + " "@ + k =~= base + " "@ + "TEXT \""@ + escaped(v) + "\""@);
    }
    assert forall|d: Seq<char>|
        !text::is_blank(d) && imap_date(text::trimmed(d)) is Some implies #[trigger] search_query(
        SearchValue { since: Some(d), ..r },
    ) == Ok::<Seq<char>, (ErrorKind, Seq<char>)>(
        base + " "@ + "SINCE "@ + imap_date(text::trimmed(d))->0,
    ) by {
        let k = "SINCE "@ + imap_date(text::trimmed(d))->0;
        text::law_joining_adds_separators_alone(keys, k, " "@);
        assert(structured_keys(SearchValue { since: Some(d), ..r }) == Ok::<
            Seq<Seq<char>>,
            (ErrorKind, Seq<char>),
        >(keys.push(k)));
        assert(base + " "@ + k =~= base + " "@ + "SINCE "@ + imap_date(text::trimmed(d))->0);
    }
}

/// A parameter that is blank is as good as none.
pub proof fn law_blank_filters_are_none(r: SearchValue, blank: Seq<char>)
    requires
        text::is_blank(blank),
    ensures
        search_query(SearchValue { from: Some(blank), ..r }) == search_query(
            SearchValue { from: None, ..r },
        ),
        search_query(SearchValue { subject: Some(blank), ..r }) == search_query(
            SearchValue { subject: None, ..r },
        ),
        search_query(SearchValue { text: Some(blank), ..r }) == search_query(
            SearchValue { text: None, ..r },
        ),
        search_query(SearchValue { since: Some(blank), ..r }) == search_query(
            SearchValue { since: None, ..r },
        ),
        search_query(SearchValue { query: Some(blank), ..r }) == search_query(
            SearchValue { query: None, ..r },
        ),
{
    assert(text::trimmed(blank) =~= Seq::empty());
}

/// A parameter that holds a line break or NUL is refused, and so is one that is no day where
/// a day is meant: no such search is carried out.
pub proof fn law_what_cannot_be_looked_for_is_refused(r: SearchValue, i: int)
    ensures
        (r.from matches Some(v) && !text::is_blank(v) && 0 <= i < v.len() && (v[i] == '\r' || v[i]
            == '\n' || v[i] == '\0')) ==> (search_query(r) matches Err(e) && e.0
            == ErrorKind::BadRequest),
        (r.subject matches Some(v) && !text::is_blank(v) && 0 <= i < v.len() && (v[i] == '\r'
            || v[i] == '\n' || v[i] == '\0')) ==> (search_query(r) matches Err(e) && e.0
            == ErrorKind::BadRequest),
        (r.text matches Some(v) && !text::is_blank(v) && 0 <= i < v.len() && (v[i] == '\r' || v[i]
            == '\n' || v[i] == '\0')) ==> (search_query(r) matches Err(e) && e.0
            == ErrorKind::BadRequest),
        (r.since matches Some(v) && !text::is_blank(v) && calendar_day(text::trimmed(v)) is None)
            ==> (search_query(r) matches Err(e) && e.0 == ErrorKind::BadRequest),
{
    if let Some(v) = r.from {
        if 0 <= i < v.len() && (v[i] == '\r' || v[i] == '\n' || v[i] == '\0') {
            assert(is_unquotable(v[i]));
        }
    }
    if let Some(v) = r.subject {
        if 0 <= i < v.len() && (v[i] == '\r' || v[i] == '\n' || v[i] == '\0') {
            assert(is_unquotable(v[i]));
        }
    }
    if let Some(v) = r.text {
        if 0 <= i < v.len() && (v[i] == '\r' || v[i] == '\n' || v[i] == '\0') {
            assert(is_unquotable(v[i]));
        }
    }
}

/// A query alone is sent as it is, less the white space around it, exactly where it begins
/// as a search key does; any other is refused.
pub proof fn law_a_query_is_sent_as_it_is(q: Seq<char>)
    requires
        !text::is_blank(q),
    ensures
        begins_as_key(text::trimmed(q)) ==> search_query(
            SearchValue { query: Some(q), ..no_filter() },
        ) == Ok::<Seq<char>, (ErrorKind, Seq<char>)>(text::trimmed(q)),
        !begins_as_key(text::trimmed(q)) ==> (search_query(
            SearchValue { query: Some(q), ..no_filter() },
        ) matches Err(e) && e.0 == ErrorKind::BadRequest),
{
}

proof fn lemma_first_word(s: Seq<char>)
    ensures
        first_word(s).len() <= s.len(),
        first_word(s) == s.take(first_word(s).len() as int),
        forall|i: int| 0 <= i < first_word(s).len() ==> !text::is_space(#[trigger] s[i]),
        first_word(s).len() < s.len() ==> text::is_space(s[first_word(s).len() as int]),
    decreases s.len(),
{
    if s.len() > 0 && !text::is_space(s[0]) {
        let rest = s.skip(1);
        lemma_first_word(rest);
        let n = first_word(s).len() as int;
        assert(first_word(s) =~= s.take(n)) by {
            assert(forall|i: int| 0 <= i < rest.len() ==> #[trigger] rest[i] == s[i + 1]);
        }
        assert forall|i: int| 0 <= i < n implies !text::is_space(#[trigger] s[i]) by {
            if i > 0 {
                assert(rest[i - 1] == s[i]);
            }
        }
        if n < s.len() {
            assert(rest[n - 1] == s[n]);
        }
    } else {
        assert(first_word(s) =~= s.take(0));
    }
}

/// Whether a query begins as a search key does is seen from its first word alone, and the
/// case of its letters makes no difference. A group and a set of sequence numbers are keys,
/// and so are the words that IMAP knows as such.
pub proof fn law_a_key_is_known_by_its_first_word(word: Seq<char>, rest: Seq<char>)
    requires
        forall|i: int| 0 <= i < word.len() ==> !text::is_space(#[trigger] word[i]),
    ensures
        begins_as_key(word + seq![' '] + rest) == begins_as_key(word),
        begins_as_key(text::lowered(word)) == begins_as_key(word),
        begins_as_key(text::uppered(word)) == begins_as_key(word),
        begins_as_key(word) <==> {
            ||| word.len() > 0 && word[0] == '('
            ||| is_search_key(text::uppered(word))
            ||| forall|i: int|
                0 <= i < word.len() ==> '0' <= (#[trigger] word[i]) <= '9' || word[i] == ','
                    || word[i] == ':' || word[i] == '*'
        },
{
    let long = word + seq![' '] + rest;
    lemma_first_word(long);
    lemma_first_word(word);
    assert(first_word(word) =~= word) by {
        if first_word(word).len() < word.len() {
            assert(!text::is_space(word[first_word(word).len() as int]));
        }
        assert(word.take(word.len() as int) =~= word);
    }
    let n = first_word(long).len() as int;
    assert(n == word.len()) by {
        assert(long[word.len() as int] == ' ');
        if n < word.len() {
            assert(long[n] == word[n]);
        }
        if n > word.len() {
            assert(!text::is_space(long[word.len() as int]));
        }
    }
    assert(first_word(long) =~= word);
    lemma_case_of_words(word);
    if forall|i: int|
        0 <= i < word.len() ==> '0' <= (#[trigger] word[i]) <= '9' || word[i] == ',' || word[i]
            == ':' || word[i] == '*' {
        assert(is_sequence_set(word));
    }
}

proof fn lemma_case_of_words(word: Seq<char>)
    requires
        forall|i: int| 0 <= i < word.len() ==> !text::is_space(#[trigger] word[i]),
        first_word(word) == word,
    ensures
        begins_as_key(text::lowered(word)) == begins_as_key(word),
        begins_as_key(text::uppered(word)) == begins_as_key(word),
{
    let small = text::lowered(word);
    let big = text::uppered(word);
    lemma_first_word(small);
    lemma_first_word(big);
    assert(first_word(small) =~= small) by {
        if first_word(small).len() < small.len() {
            let k = first_word(small).len() as int;
            assert(small[k] == text::lower_char(word[k]));
            assert(!text::is_space(word[k]));
        }
        assert(small.take(small.len() as int) =~= small);
    }
    assert(first_word(big) =~= big) by {
        if first_word(big).len() < big.len() {
            let k = first_word(big).len() as int;
            assert(big[k] == text::upper_char(word[k]));
            assert(!text::is_space(word[k]));
        }
        assert(big.take(big.len() as int) =~= big);
    }
    text::law_raising_changes_small_letters_alone(word);
    assert(is_sequence_set(small) == is_sequence_set(word)) by {
        if is_sequence_set(word) {
            assert forall|i: int| 0 <= i < small.len() implies text::is_digit(#[trigger] small[i])
                || small[i] == ',' || small[i] == ':' || small[i] == '*' by {
                assert(text::is_digit(word[i]) || word[i] == ',' || word[i] == ':' || word[i]
                    == '*');
            }
        }
        if is_sequence_set(small) {
            assert forall|i: int| 0 <= i < word.len() implies text::is_digit(#[trigger] word[i])
                || word[i] == ',' || word[i] == ':' || word[i] == '*' by {
                assert(text::is_digit(small[i]) || small[i] == ',' || small[i] == ':' || small[i]
                    == '*');
            }
        }
    }
    assert(is_sequence_set(big) == is_sequence_set(word)) by {
        if is_sequence_set(word) {
            assert forall|i: int| 0 <= i < big.len() implies text::is_digit(#[trigger] big[i])
                || big[i] == ',' || big[i] == ':' || big[i] == '*' by {
                assert(text::is_digit(word[i]) || word[i] == ',' || word[i] == ':' || word[i]
                    == '*');
            }
        }
        if is_sequence_set(big) {
            assert forall|i: int| 0 <= i < word.len() implies text::is_digit(#[trigger] word[i])
                || word[i] == ',' || word[i] == ':' || word[i] == '*' by {
                assert(text::is_digit(big[i]) || big[i] == ',' || big[i] == ':' || big[i] == '*');
            }
        }
    }
}

/// The words that a search key can begin with are these and no others.
pub proof fn law_the_search_keys(w: Seq<char>)
    ensures
        is_search_key(w) <==> {
            ||| seq![
                "ALL"@,
                "ANSWERED"@,
                "BCC"@,
                "BEFORE"@,
                "BODY"@,
                "CC"@,
                "DELETED"@,
                "DRAFT"@,
                "FLAGGED"@,
                "FROM"@,
                "HEADER"@,
                "KEYWORD"@,
            ].contains(w)
            ||| seq![
                "LARGER"@,
                "NEW"@,
                "NOT"@,
                "OLD"@,
                "OLDER"@,
                "ON"@,
                "OR"@,
                "RECENT"@,
                "SEEN"@,
                "SENTBEFORE"@,
                "SENTON"@,
                "SENTSINCE"@,
            ].contains(w)
            ||| seq![
                "SINCE"@,
                "SMALLER"@,
                "SUBJECT"@,
                "TEXT"@,
                "TO"@,
                "UID"@,
                "UNANSWERED"@,
                "UNDELETED"@,
                "UNDRAFT"@,
                "UNFLAGGED"@,
                "UNKEYWORD"@,
                "UNSEEN"@,
                "YOUNGER"@,
            ].contains(w)
        },
{
    let a = seq![
        "ALL"@,
        "ANSWERED"@,
        "BCC"@,
        "BEFORE"@,
        "BODY"@,
        "CC"@,
        "DELETED"@,
        "DRAFT"@,
        "FLAGGED"@,
        "FROM"@,
        "HEADER"@,
        "KEYWORD"@,
    ];
    let b = seq![
        "LARGER"@,
        "NEW"@,
        "NOT"@,
        "OLD"@,
        "OLDER"@,
        "ON"@,
        "OR"@,
        "RECENT"@,
        "SEEN"@,
        "SENTBEFORE"@,
        "SENTON"@,
        "SENTSINCE"@,
    ];
    let c = seq![
        "SINCE"@,
        "SMALLER"@,
        "SUBJECT"@,
        "TEXT"@,
        "TO"@,
        "UID"@,
        "UNANSWERED"@,
        "UNDELETED"@,
        "UNDRAFT"@,
        "UNFLAGGED"@,
        "UNKEYWORD"@,
        "UNSEEN"@,
        "YOUNGER"@,
    ];
    assert(a[0] == "ALL"@ && a[1] == "ANSWERED"@ && a[2] == "BCC"@ && a[3] == "BEFORE"@ && a[4]
        == "BODY"@ && a[5] == "CC"@ && a[6] == "DELETED"@ && a[7] == "DRAFT"@ && a[8]
        == "FLAGGED"@ && a[9] == "FROM"@ && a[10] == "HEADER"@ && a[11] == "KEYWORD"@);
    assert(b[0] == "LARGER"@ && b[1] == "NEW"@ && b[2] == "NOT"@ && b[3] == "OLD"@ && b[4]
        == "OLDER"@ && b[5] == "ON"@ && b[6] == "OR"@ && b[7] == "RECENT"@ && b[8] == "SEEN"@
        && b[9] == "SENTBEFORE"@ && b[10] == "SENTON"@ && b[11] == "SENTSINCE"@);
    assert(c[0] == "SINCE"@ && c[1] == "SMALLER"@ && c[2] == "SUBJECT"@ && c[3] == "TEXT"@ && c[4]
        == "TO"@ && c[5] == "UID"@ && c[6] == "UNANSWERED"@ && c[7] == "UNDELETED"@ && c[8]
        == "UNDRAFT"@ && c[9] == "UNFLAGGED"@ && c[10] == "UNKEYWORD"@ && c[11] == "UNSEEN"@
        && c[12] == "YOUNGER"@);
    if a.contains(w) {
        let k = a.index_of(w);
        assert(a[k] == w);
    }
    if b.contains(w) {
        let k = b.index_of(w);
        assert(b[k] == w);
    }
    if c.contains(w) {
        let k = c.index_of(w);
        assert(c[k] == w);
    }
}

/// A year has a 29th of February where four divides it, but of the full centuries only
/// where four divides the century; so it goes every four hundred years.
pub proof fn law_leap_years(year: nat)
    ensures
        year % 100 != 0 ==> (is_leap(year) <==> year % 4 == 0),
        year % 100 == 0 ==> (is_leap(year) <==> (year / 100) % 4 == 0),
        is_leap(year + 400) == is_leap(year),
{
}

/// The months but February have 31 days and 30 by turns, and begin anew with 31 in August.
pub proof fn law_days_of_the_months(year: nat, month: nat)
    requires
        1 <= month <= 12,
    ensures
        month != 2 ==> days_in(year, month) == 30 + (month + month / 8) % 2,
        month == 2 ==> days_in(year, month) == if is_leap(year) {
            29nat
        } else {
            28
        },
{
}

/// The names of the months are three letters each, in the order of the year.
pub proof fn law_names_of_the_months(month: nat)
    requires
        1 <= month <= 12,
    ensures
        month_name(month) == "JanFebMarAprMayJunJulAugSepOctNovDec"@.subrange(
            3 * month - 3,
            3 * month as int,
        ),
{
    reveal_strlit("JanFebMarAprMayJunJulAugSepOctNovDec");
    reveal_strlit("Jan");
    reveal_strlit("Feb");
    reveal_strlit("Mar");
    reveal_strlit("Apr");
    reveal_strlit("May");
    reveal_strlit("Jun");
    reveal_strlit("Jul");
    reveal_strlit("Aug");
    reveal_strlit("Sep");
    reveal_strlit("Oct");
    reveal_strlit("Nov");
    reveal_strlit("Dec");
    let all = "JanFebMarAprMayJunJulAugSepOctNovDec"@;
    assert(month_name(month) =~= all.subrange(3 * month - 3, 3 * month as int));
}

/// A day of the calendar, written as `YYYY-MM-DD`, is looked for as the same day: its day in
/// decimal, the name of its month, its year as it was written. Every text of that form that
/// is a day of the calendar is taken.
pub proof fn law_a_day_stays_the_same_day(s: Seq<char>, year: nat, month: nat, day: nat)
    requires
        s.len() == 10,
        s[4] == '-' && s[7] == '-',
        text::decimal_in(s.subrange(0, 4), 9999) == Some(year),
        text::decimal_in(s.subrange(5, 7), 99) == Some(month),
        text::decimal_in(s.subrange(8, 10), 99) == Some(day),
    ensures
        imap_date(s) is Some <==> 1 <= month <= 12 && 1 <= day <= days_in(year, month),
        imap_date(s) matches Some(d) ==> d == text::decimal(day) + "-"@ + month_name(month) + "-"@
            + s.subrange(0, 4),
{
}

/// No text but four, two and two digits with hyphens between is taken for a day.
pub proof fn law_only_days_are_dates(s: Seq<char>)
    ensures
        imap_date(s) is Some ==> s.len() == 10 && s[4] == '-' && s[7] == '-' && forall|i: int|
            0 <= i < 10 && i != 4 && i != 7 ==> '0' <= #[trigger] s[i] <= '9',
{
    if imap_date(s) is Some {
        assert forall|i: int| 0 <= i < 10 && i != 4 && i != 7 implies '0' <= #[trigger] s[i]
            <= '9' by {
            if i < 4 {
                assert(text::is_digit(s.subrange(0, 4)[i]));
            } else if i < 7 {
                assert(text::is_digit(s.subrange(5, 7)[i - 5]));
            } else {
                assert(text::is_digit(s.subrange(8, 10)[i - 8]));
            }
        }
    }
}

/// A day alone is looked for from that day on.
pub proof fn law_since_has_its_own_key(d: Seq<char>)
    requires
        !text::is_blank(d),
        imap_date(text::trimmed(d)) is Some,
    ensures
        search_query(SearchValue { since: Some(d), ..no_filter() }) == Ok::<
            Seq<char>,
            (ErrorKind, Seq<char>),
        >("SINCE "@ + imap_date(text::trimmed(d))->0),
{
    let k = "SINCE "@ + imap_date(text::trimmed(d))->0;
    assert(Seq::<Seq<char>>::empty().push(k)[0] == k);
}

/// The error for bare words shows them and how to look for them: behind `FROM` or `TEXT`.
pub proof fn law_bare_words_are_told_the_fix(q: Seq<char>)
    ensures
        no_search_key(q).0 == ErrorKind::BadRequest,
        text::has_prefix(no_search_key(q).1, "invalid criteria: "@ + q),
        text::holds(no_search_key(q).1, "FROM "@ + q),
        text::holds(no_search_key(q).1, "TEXT "@ + q),
{
    reveal_strlit(" — bare words are not IMAP SEARCH keys. Did you mean FROM ");
    reveal_strlit(" — bare words are not IMAP SEARCH keys. Did you mean ");
    reveal_strlit("FROM ");
    reveal_strlit(" or TEXT ");
    reveal_strlit(" or ");
    reveal_strlit("TEXT ");
    let e = no_search_key(q).1;
    let start = "invalid criteria: "@ + q;
    assert(e.take(start.len() as int) =~= start);
    let said = " — bare words are not IMAP SEARCH keys. Did you mean "@;
    let after = " or TEXT "@ + q + "?"@;
    text::law_a_text_holds_its_middle(start + said, "FROM "@ + q, after);
    assert(start + said + ("FROM "@ + q) + after =~= e);
    let before = start + said + "FROM "@ + q + " or "@;
    text::law_a_text_holds_its_middle(before, "TEXT "@ + q, "?"@);
    assert(before + ("TEXT "@ + q) + "?"@ =~= e);
}

/// The error for a filter that cannot be looked for names the filter.
pub proof fn law_a_bad_filter_is_named(param: Seq<char>, name: Seq<char>, v: Seq<char>)
    ensures
        text_key(param, name, Some(v)) matches Err(e) ==> e.0 == ErrorKind::BadRequest
            && text::has_prefix(e.1, "`"@ + param + "`"@),
{
    reveal_strlit("`");
    reveal_strlit("` must not contain line breaks or NUL");
    if let Err(e) = text_key(param, name, Some(v)) {
        let start = "`"@ + param + "`"@;
        assert(e.1.take(start.len() as int) =~= start);
    }
}

/// The error for a filter that cannot be looked for names the parameter that it came in;
/// where there are several, the first of `from`, `subject`, `text` and `since`.
pub proof fn law_the_parameter_at_fault_is_named(r: SearchValue, i: int)
    ensures
        (r.from matches Some(v) && !text::is_blank(v) && 0 <= i < v.len() && (v[i] == '\r' || v[i]
            == '\n' || v[i] == '\0')) ==> (search_query(r) matches Err(e) && text::has_prefix(
            e.1,
            "`from`"@,
        )),
        (r.subject matches Some(v) && r.from is None && !text::is_blank(v) && 0 <= i < v.len() && (
        v[i] == '\r' || v[i] == '\n' || v[i] == '\0')) ==> (search_query(r) matches Err(e)
            && text::has_prefix(e.1, "`subject`"@)),
        (r.text matches Some(v) && r.from is None && r.subject is None && !text::is_blank(v) && 0
            <= i < v.len() && (v[i] == '\r' || v[i] == '\n' || v[i] == '\0')) ==> (search_query(
            r,
        ) matches Err(e) && text::has_prefix(e.1, "`text`"@)),
        (r.since matches Some(v) && r.from is None && r.subject is None && r.text is None
            && !text::is_blank(v) && calendar_day(text::trimmed(v)) is None) ==> (search_query(
            r,
        ) matches Err(e) && text::has_prefix(e.1, "`since`"@)),
{
    law_what_cannot_be_looked_for_is_refused(r, i);
    reveal_strlit("`");
    reveal_strlit("from");
    reveal_strlit("subject");
    reveal_strlit("text");
    reveal_strlit("`from`");
    reveal_strlit("`subject`");
    reveal_strlit("`text`");
    reveal_strlit("`since`");
    reveal_strlit("`since` must be a date of the form YYYY-MM-DD");
    assert("`"@ + "from"@ + "`"@ =~= "`from`"@);
    assert("`"@ + "subject"@ + "`"@ =~= "`subject`"@);
    assert("`"@ + "text"@ + "`"@ =~= "`text`"@);
    let late = "`since` must be a date of the form YYYY-MM-DD"@;
    assert(late.take(7) =~= "`since`"@);
    if let Some(v) = r.from {
        law_a_bad_filter_is_named("from"@, "FROM"@, v);
        if 0 <= i < v.len() && (v[i] == '\r' || v[i] == '\n' || v[i] == '\0') {
            assert(is_unquotable(v[i]));
        }
    }
    if let Some(v) = r.subject {
        law_a_bad_filter_is_named("subject"@, "SUBJECT"@, v);
        if 0 <= i < v.len() && (v[i] == '\r' || v[i] == '\n' || v[i] == '\0') {
            assert(is_unquotable(v[i]));
        }
    }
    if let Some(v) = r.text {
        law_a_bad_filter_is_named("text"@, "TEXT"@, v);
        if 0 <= i < v.len() && (v[i] == '\r' || v[i] == '\n' || v[i] == '\0') {
            assert(is_unquotable(v[i]));
        }
    }
}

/// What is said of a value is said of what it holds: every field and every case stands
/// under its own name, and nothing is left out.
pub proof fn law_views_say_what_the_values_hold(
    search_request: SearchRequest,
    search_plan: SearchPlan,
)
    ensures
        search_request.deep_view().folder == search_request.folder.deep_view(),
        search_request.deep_view().query == search_request.query.deep_view(),
        search_request.deep_view().from == search_request.from.deep_view(),
        search_request.deep_view().subject == search_request.subject.deep_view(),
        search_request.deep_view().text == search_request.text.deep_view(),
        search_request.deep_view().since == search_request.since.deep_view(),
        search_request.deep_view().limit == search_request.limit,
        search_plan.deep_view().0 == search_plan.mailbox@,
        search_plan.deep_view().1 == search_plan.query@,
        search_plan.deep_view().2 == search_plan.limit,
{
}

} // verus!
