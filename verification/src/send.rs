//! The `send` action: its request, its response, and what is disclosed of a message.
//!
//! A caller that has writes approved sees From, To, Subject and the start of the body, and
//! nothing else: no copies, no blind copies, and nothing that was not in the request's body.

use vstd::prelude::*;
use vstd::slice::slice_subrange;

use crate::error;
use crate::error::{ErrorKind, GatewayError};
use crate::smtp;
use crate::smtp::{MessageValue, OutgoingBody, OutgoingMessage};
use crate::text;

verus! {

/// How many characters of the body are disclosed.
pub const BODY_PREVIEW_LIMIT: usize = 256;

// ---------------------------------------------------------------------------
// Requests
// ---------------------------------------------------------------------------

/// Recipients as a request gives them: one line, or a list.
#[derive(Debug, Clone, PartialEq, Eq)]
pub enum Recipients {
    /// Addresses with commas between.
    One(String),
    /// One address each.
    Many(Vec<String>),
}

/// What `Recipients` hold.
#[verifier::ext_equal]
pub enum RecipientsValue {
    One(Seq<char>),
    Many(Seq<Seq<char>>),
}

impl DeepView for Recipients {
    type V = RecipientsValue;

    open spec fn deep_view(&self) -> RecipientsValue {
        match *self {
            Recipients::One(line) => RecipientsValue::One(line@),
            Recipients::Many(list) => RecipientsValue::Many(list.deep_view()),
        }
    }
}

/// The pieces that are not blank, trimmed.
pub open spec fn full_pieces(pieces: Seq<Seq<char>>) -> Seq<Seq<char>>
    decreases pieces.len(),
{
    if pieces.len() == 0 {
        Seq::empty()
    } else {
        let rest = full_pieces(pieces.drop_last());
        if text::is_blank(pieces.last()) {
            rest
        } else {
            rest.push(text::trimmed(pieces.last()))
        }
    }
}

/// The addresses that recipients stand for: a line is cut at its commas and the pieces
/// trimmed, blank ones dropped; a list is taken as it is.
pub open spec fn addresses(r: RecipientsValue) -> Seq<Seq<char>> {
    match r {
        RecipientsValue::One(line) => full_pieces(text::split(line, ',')),
        RecipientsValue::Many(list) => list,
    }
}

/// The addresses that recipients stand for.
pub fn de_recipients(r: Recipients) -> (out: Vec<String>)
    ensures
        out.deep_view() == addresses(r.deep_view()),
{
    match r {
        Recipients::Many(list) => list,
        Recipients::One(line) => {
            let chars = text::to_chars(line.as_str());
            let pieces = text::split_chars(chars.as_slice(), ',');
            let ghost all = text::split(line@, ',');
            let mut out: Vec<String> = Vec::new();
            let mut i: usize = 0;
            assert(out.deep_view() =~= full_pieces(all.take(0)));
            while i < pieces.len()
                invariant
                    i <= pieces.len(),
                    text::pieces(pieces@) == all,
                    out.deep_view() == full_pieces(all.take(i as int)),
                decreases pieces.len() - i,
            {
                proof {
                    assert(all.take(i + 1).drop_last() =~= all.take(i as int));
                    assert(all[i as int] == pieces@[i as int]@);
                }
                let piece = text::trim_chars(pieces[i]);
                let ghost before = out.deep_view();
                if piece.len() > 0 {
                    let one = text::from_chars(piece);
                    out.push(one);
                    assert(out.deep_view() =~= before.push(one@));
                }
                i = i + 1;
            }
            assert(all.take(i as int) =~= all);
            out
        },
    }
}

/// A request to send a message.
#[derive(Debug, Clone, PartialEq, Eq)]
pub struct SendRequest {
    pub from: String,
    pub to: Vec<String>,
    pub cc: Vec<String>,
    pub bcc: Vec<String>,
    pub subject: String,
    pub text: Option<String>,
    pub html: Option<String>,
}

impl DeepView for SendRequest {
    type V = MessageValue;

    open spec fn deep_view(&self) -> MessageValue {
        MessageValue {
            from: self.from@,
            to: self.to.deep_view(),
            cc: self.cc.deep_view(),
            bcc: self.bcc.deep_view(),
            subject: self.subject@,
            text: self.text.deep_view(),
            html: self.html.deep_view(),
        }
    }
}

/// The message that a request asks for: it needs a recipient and a body.
pub open spec fn message_of(r: MessageValue) -> Result<MessageValue, (ErrorKind, Seq<char>)> {
    if r.to.len() == 0 {
        Err((ErrorKind::BadRequest, "`to` must contain at least one recipient"@))
    } else if r.text is None && r.html is None {
        Err(
            (
                ErrorKind::BadRequest,
                "a message body is required: provide `text`, `html`, or both"@,
            ),
        )
    } else {
        Ok(r)
    }
}

impl SendRequest {
    /// The message that the request asks for.
    pub fn into_message(self) -> (r: Result<OutgoingMessage, GatewayError>)
        ensures
            error::outcome(r) == message_of(self.deep_view()),
    {
        if self.to.len() == 0 {
            return Err(
                GatewayError::BadRequest("`to` must contain at least one recipient".to_owned()),
            );
        }
        let body = match (self.text, self.html) {
            (Some(text), Some(html)) => OutgoingBody::Both { text, html },
            (Some(text), None) => OutgoingBody::Text(text),
            (None, Some(html)) => OutgoingBody::Html(html),
            (None, None) => {
                return Err(
                    GatewayError::BadRequest(
                        "a message body is required: provide `text`, `html`, or both".to_owned(),
                    ),
                );
            },
        };
        Ok(
            OutgoingMessage {
                from: self.from,
                to: self.to,
                cc: self.cc,
                bcc: self.bcc,
                subject: self.subject,
                body,
            },
        )
    }
}

// ---------------------------------------------------------------------------
// Disclosure
// ---------------------------------------------------------------------------

/// What is disclosed of a message.
#[derive(Debug, Clone, PartialEq, Eq)]
pub struct SendDisclosure {
    pub from: String,
    pub to: Vec<String>,
    pub subject: String,
    /// The start of the body.
    pub body_preview: String,
}

/// What a `SendDisclosure` holds.
#[verifier::ext_equal]
pub struct DisclosureValue {
    pub from: Seq<char>,
    pub to: Seq<Seq<char>>,
    pub subject: Seq<char>,
    pub body_preview: Seq<char>,
}

impl DeepView for SendDisclosure {
    type V = DisclosureValue;

    open spec fn deep_view(&self) -> DisclosureValue {
        DisclosureValue {
            from: self.from@,
            to: self.to.deep_view(),
            subject: self.subject@,
            body_preview: self.body_preview@,
        }
    }
}

/// The start of a body, with an ellipsis where there is more.
pub open spec fn clamped(body: Seq<char>) -> Seq<char> {
    if body.len() > BODY_PREVIEW_LIMIT {
        body.take(BODY_PREVIEW_LIMIT as int).push('…')
    } else {
        body
    }
}

/// The body that is disclosed: the text, or the HTML where there is none.
pub open spec fn preview_body(m: MessageValue) -> Seq<char> {
    match m.text {
        Some(text) => text,
        None => m.html->0,
    }
}

/// What is disclosed of a message.
pub open spec fn disclosure_of(m: MessageValue) -> DisclosureValue {
    DisclosureValue {
        from: m.from,
        to: m.to,
        subject: m.subject,
        body_preview: clamped(preview_body(m)),
    }
}

/// The start of a body, in characters, with an ellipsis where there is more.
pub fn clamp_preview(body: &str) -> (r: String)
    ensures
        r@ == clamped(body@),
{
    let chars = text::to_chars(body);
    if chars.len() <= BODY_PREVIEW_LIMIT {
        return body.to_owned();
    }
    let mut out = text::from_chars(slice_subrange(chars.as_slice(), 0, BODY_PREVIEW_LIMIT));
    out.push('…');
    out
}

fn preview_source(body: &OutgoingBody) -> (r: &str)
    ensures
        r@ == match smtp::body_value(*body).0 {
            Some(text) => text,
            None => smtp::body_value(*body).1->0,
        },
{
    match body {
        OutgoingBody::Text(text) => text.as_str(),
        OutgoingBody::Html(html) => html.as_str(),
        OutgoingBody::Both { text, .. } => text.as_str(),
    }
}

impl SendDisclosure {
    /// What is disclosed of a message.
    pub fn for_message(message: &OutgoingMessage) -> (r: Self)
        ensures
            r.deep_view() == disclosure_of(message.deep_view()),
    {
        SendDisclosure {
            from: message.from.clone(),
            to: smtp::clone_texts(&message.to),
            subject: message.subject.clone(),
            body_preview: clamp_preview(preview_source(&message.body)),
        }
    }
}

/// The response to a message that the provider accepted.
#[derive(Debug, Clone, PartialEq, Eq)]
pub struct SendResponse {
    pub sent: bool,
    pub disclosure: SendDisclosure,
}

impl SendResponse {
    /// The message was accepted.
    pub fn accepted(disclosure: SendDisclosure) -> (r: Self)
        ensures
            r.sent,
            r.disclosure == disclosure,
    {
        SendResponse { sent: true, disclosure }
    }
}

/// Copies and blind copies are not disclosed: messages that differ in nothing else are
/// disclosed alike.
pub proof fn law_disclosure_hides_copies(
    m: MessageValue,
    cc: Seq<Seq<char>>,
    bcc: Seq<Seq<char>>,
)
    ensures
        disclosure_of(MessageValue { cc, bcc, ..m }) == disclosure_of(m),
{
}

/// Of a body no more is disclosed than its first characters and an ellipsis.
pub proof fn law_preview_is_bounded(body: Seq<char>)
    ensures
        clamped(body).len() <= BODY_PREVIEW_LIMIT + 1,
        body.len() <= BODY_PREVIEW_LIMIT ==> clamped(body) == body,
        forall|i: int|
            0 <= i < BODY_PREVIEW_LIMIT && i < body.len() ==> #[trigger] clamped(body)[i]
                == body[i],
{
}

/// A line of addresses means the same as the list of them: addresses that are not blank,
/// without space around and without commas, come out of the line that joins them.
pub proof fn law_line_and_list_agree(list: Seq<Seq<char>>)
    requires
        list.len() > 0,
        forall|i: int|
            0 <= i < list.len() ==> !text::is_blank(#[trigger] list[i]) && text::trimmed(list[i])
                == list[i] && !list[i].contains(','),
    ensures
        addresses(RecipientsValue::One(text::join(list, ","@))) == addresses(
            RecipientsValue::Many(list),
        ),
{
    lemma_split_join(list);
    lemma_full_pieces(list);
}

proof fn lemma_full_pieces(list: Seq<Seq<char>>)
    requires
        forall|i: int|
            0 <= i < list.len() ==> !text::is_blank(#[trigger] list[i]) && text::trimmed(list[i])
                == list[i],
    ensures
        full_pieces(list) == list,
    decreases list.len(),
{
    if list.len() > 0 {
        assert forall|i: int| 0 <= i < list.drop_last().len() implies !text::is_blank(
            #[trigger] list.drop_last()[i],
        ) && text::trimmed(list.drop_last()[i]) == list.drop_last()[i] by {
            assert(list.drop_last()[i] == list[i]);
        }
        lemma_full_pieces(list.drop_last());
        assert(!text::is_blank(list[list.len() - 1]));
        assert(list.drop_last().push(list.last()) =~= list);
    }
}

proof fn lemma_split_join(list: Seq<Seq<char>>)
    requires
        list.len() > 0,
        forall|i: int| 0 <= i < list.len() ==> !(#[trigger] list[i]).contains(','),
    ensures
        text::split(text::join(list, ","@), ',') == list,
    decreases list.len(),
{
    reveal_strlit(",");
    let line = text::join(list, ","@);
    if list.len() == 1 {
        assert(!list[0].contains(','));
        text::lemma_find(line, ',');
        if text::find(line, ',') < line.len() {
            assert(line.contains(','));
        }
        assert(text::split(line, ',') =~= list);
    } else {
        let rest = list.drop_last();
        assert forall|i: int| 0 <= i < rest.len() implies !(#[trigger] rest[i]).contains(',') by {
            assert(rest[i] == list[i]);
        }
        lemma_split_join(rest);
        assert(!list[list.len() - 1].contains(','));
        lemma_split_append(text::join(rest, ","@), list.last());
        assert(line =~= text::join(rest, ","@) + seq![','] + list.last());
        assert(rest.push(list.last()) =~= list);
    }
}

proof fn lemma_split_append(s: Seq<char>, t: Seq<char>)
    requires
        !t.contains(','),
    ensures
        text::split(s + seq![','] + t, ',') == text::split(s, ',').push(t),
    decreases s.len(),
{
    let all = s + seq![','] + t;
    text::lemma_find(s, ',');
    let i = text::find(s, ',');
    if i < s.len() {
        assert forall|j: int| 0 <= j < i implies all[j] != ',' by {
            assert(all[j] == s[j]);
        }
        assert(all[i] == s[i]);
        text::lemma_find_is(all, ',', i);
        assert(all.take(i) =~= s.take(i));
        assert(all.skip(i + 1) =~= s.skip(i + 1) + seq![','] + t);
        lemma_split_append(s.skip(i + 1), t);
        assert(text::split(all, ',') =~= text::split(s, ',').push(t));
    } else {
        assert forall|j: int| 0 <= j < s.len() implies all[j] != ',' by {
            assert(all[j] == s[j]);
        }
        assert(all[s.len() as int] == ',');
        text::lemma_find_is(all, ',', s.len() as int);
        assert(all.take(s.len() as int) =~= s);
        assert(all.skip(s.len() as int + 1) =~= t);
        text::lemma_find(t, ',');
        if text::find(t, ',') < t.len() {
            assert(t.contains(','));
        }
        assert(text::split(t, ',') =~= seq![t]);
        assert(text::split(all, ',') =~= text::split(s, ',').push(t));
    }
}

/// What is sent is what was asked for: a request with a recipient and a body is always
/// taken, and the message has its sender, every one of its recipients, copies and blind
/// copies in their order, its subject, its text and its HTML, each in full. Any other
/// request is a bad request.
pub proof fn law_the_message_is_the_request(r: MessageValue)
    ensures
        message_of(r) is Ok <==> r.to.len() > 0 && (r.text is Some || r.html is Some),
        message_of(r) matches Ok(m) ==> {
            &&& m.from == r.from
            &&& m.to.len() == r.to.len()
            &&& forall|i: int| 0 <= i < r.to.len() ==> #[trigger] m.to[i] == r.to[i]
            &&& m.cc.len() == r.cc.len()
            &&& forall|i: int| 0 <= i < r.cc.len() ==> #[trigger] m.cc[i] == r.cc[i]
            &&& m.bcc.len() == r.bcc.len()
            &&& forall|i: int| 0 <= i < r.bcc.len() ==> #[trigger] m.bcc[i] == r.bcc[i]
            &&& m.subject == r.subject
            &&& m.text == r.text
            &&& m.html == r.html
        },
        message_of(r) matches Err(e) ==> e.0 == ErrorKind::BadRequest,
{
}

/// Everyone that a request names, as a recipient, a copy or a blind copy, is in the
/// envelope of its message.
pub proof fn law_everyone_named_gets_the_message(r: MessageValue, who: Seq<char>)
    requires
        r.to.contains(who) || r.cc.contains(who) || r.bcc.contains(who),
    ensures
        message_of(r) matches Ok(m) ==> (smtp::checked_envelope(m) matches Ok(e) ==> e.1.contains(
            who,
        ) && e.0 == r.from),
{
    if let Ok(m) = message_of(r) {
        let all = smtp::recipients(m);
        if r.to.contains(who) {
            let i = r.to.index_of(who);
            assert(m.to[i] == r.to[i]);
            assert(all[i] == who);
        } else if r.cc.contains(who) {
            let i = r.cc.index_of(who);
            assert(m.cc[i] == r.cc[i]);
            assert(all[m.to.len() + i] == who);
        } else {
            let i = r.bcc.index_of(who);
            assert(m.bcc[i] == r.bcc[i]);
            assert(all[m.to.len() + m.cc.len() + i] == who);
        }
    }
}

/// A caller is shown the sender, all the recipients, the subject, and the start of what
/// was written: of the text, and of the HTML only where there is no text. A body of up to
/// 256 characters is shown whole, of a longer one the first 256 with an ellipsis behind.
pub proof fn law_the_caller_sees_what_is_sent(m: MessageValue)
    requires
        m.text is Some || m.html is Some,
    ensures
        ({
            let shown = disclosure_of(m);
            let body = if m.text is Some {
                m.text->0
            } else {
                m.html->0
            };
            &&& shown.from == m.from
            &&& shown.to == m.to
            &&& shown.subject == m.subject
            &&& body.len() <= 256 ==> shown.body_preview == body
            &&& body.len() > 256 ==> shown.body_preview.len() == 257
                && shown.body_preview.last() == '…'
            &&& forall|i: int|
                0 <= i < body.len() && i < 256 ==> #[trigger] shown.body_preview[i] == body[i]
        }),
{
}

proof fn lemma_full_pieces_append(a: Seq<Seq<char>>, b: Seq<Seq<char>>)
    ensures
        full_pieces(a + b) == full_pieces(a) + full_pieces(b),
    decreases b.len(),
{
    if b.len() == 0 {
        assert(a + b =~= a);
        assert(full_pieces(a) + full_pieces(b) =~= full_pieces(a));
    } else {
        lemma_full_pieces_append(a, b.drop_last());
        assert((a + b).drop_last() =~= a + b.drop_last());
        assert(full_pieces(a + b) =~= full_pieces(a) + full_pieces(b));
    }
}

proof fn lemma_cut_at_comma(a: Seq<char>, b: Seq<char>)
    ensures
        text::split(a + ","@ + b, ',') == text::split(a, ',') + text::split(b, ','),
    decreases a.len(),
{
    reveal_strlit(",");
    let all = a + ","@ + b;
    text::lemma_find(a, ',');
    let i = text::find(a, ',');
    if i < a.len() {
        assert forall|j: int| 0 <= j < i implies all[j] != ',' by {
            assert(all[j] == a[j]);
        }
        assert(all[i] == a[i]);
        text::lemma_find_is(all, ',', i);
        assert(all.take(i) =~= a.take(i));
        assert(all.skip(i + 1) =~= a.skip(i + 1) + ","@ + b);
        lemma_cut_at_comma(a.skip(i + 1), b);
        assert(text::split(all, ',') =~= text::split(a, ',') + text::split(b, ','));
    } else {
        assert forall|j: int| 0 <= j < a.len() implies all[j] != ',' by {
            assert(all[j] == a[j]);
        }
        assert(all[a.len() as int] == ',');
        text::lemma_find_is(all, ',', a.len() as int);
        assert(all.take(a.len() as int) =~= a);
        assert(all.skip(a.len() as int + 1) =~= b);
        assert(text::split(all, ',') =~= text::split(a, ',') + text::split(b, ','));
    }
}

/// A list of recipients is taken as it is. A line means the addresses on either side of
/// each of its commas, one after the other; a stretch without a comma is one address, less
/// the white space around it, or none where it is blank.
pub proof fn law_a_line_is_cut_at_its_commas(list: Seq<Seq<char>>, a: Seq<char>, b: Seq<char>)
    ensures
        addresses(RecipientsValue::Many(list)) == list,
        addresses(RecipientsValue::One(a + ","@ + b)) == addresses(RecipientsValue::One(a))
            + addresses(RecipientsValue::One(b)),
        !a.contains(',') ==> addresses(RecipientsValue::One(a)) == if text::is_blank(a) {
            Seq::<Seq<char>>::empty()
        } else {
            seq![text::trimmed(a)]
        },
{
    lemma_cut_at_comma(a, b);
    lemma_full_pieces_append(text::split(a, ','), text::split(b, ','));
    if !a.contains(',') {
        text::lemma_find(a, ',');
        if text::find(a, ',') < a.len() {
            assert(a.contains(','));
        }
        let one = text::split(a, ',');
        assert(one =~= seq![a]);
        assert(one.drop_last() =~= Seq::<Seq<char>>::empty());
        assert(full_pieces(one.drop_last()) =~= Seq::<Seq<char>>::empty());
        assert(full_pieces(one) =~= if text::is_blank(a) {
            Seq::<Seq<char>>::empty()
        } else {
            seq![text::trimmed(a)]
        });
    }
}

/// What is said of a value is said of what it holds: every field and every case stands
/// under its own name, and nothing is left out.
pub proof fn law_views_say_what_the_values_hold(
    recipients: Recipients,
    send_request: SendRequest,
    send_disclosure: SendDisclosure,
)
    ensures
        match recipients {
            Recipients::One(line) => recipients.deep_view() == RecipientsValue::One(line@),
            Recipients::Many(list) => recipients.deep_view()
                == RecipientsValue::Many(list.deep_view()),
        },
        send_request.deep_view().from == send_request.from@,
        send_request.deep_view().to == send_request.to.deep_view(),
        send_request.deep_view().cc == send_request.cc.deep_view(),
        send_request.deep_view().bcc == send_request.bcc.deep_view(),
        send_request.deep_view().subject == send_request.subject@,
        send_request.deep_view().text == send_request.text.deep_view(),
        send_request.deep_view().html == send_request.html.deep_view(),
        send_disclosure.deep_view().from == send_disclosure.from@,
        send_disclosure.deep_view().to == send_disclosure.to.deep_view(),
        send_disclosure.deep_view().subject == send_disclosure.subject@,
        send_disclosure.deep_view().body_preview == send_disclosure.body_preview@,
{
}

} // verus!
