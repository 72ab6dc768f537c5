//! The course of a read: a session is found or opened, a mailbox selected, messages are
//! searched for and fetched, and the session is kept or closed.
//!
//! A `ReadRun` says what is to be done next and takes what came of it, until it is over.

use vstd::prelude::*;

use crate::auth::HostPort;
use crate::error;
use crate::error::{ErrorKind, GatewayError};
use crate::imap;
use crate::imap::{
    ConnectFailure, FullMessage, FullValue, ImapFailure, SearchResults, SummaryValue,
};

verus! {

/// What is to be read.
#[derive(Debug, Clone, PartialEq, Eq)]
pub enum ReadRequest {
    /// The newest `limit` messages of a mailbox that match a query.
    Search { mailbox: String, query: String, limit: usize },
    /// The message `uid` of a mailbox.
    Get { mailbox: String, uid: u32 },
}

/// What a `ReadRequest` holds.
#[verifier::ext_equal]
pub enum ReadValue {
    Search { mailbox: Seq<char>, query: Seq<char>, limit: usize },
    Get { mailbox: Seq<char>, uid: u32 },
}

impl DeepView for ReadRequest {
    type V = ReadValue;

    open spec fn deep_view(&self) -> ReadValue {
        match *self {
            ReadRequest::Search { mailbox, query, limit } => ReadValue::Search {
                mailbox: mailbox@,
                query: query@,
                limit,
            },
            ReadRequest::Get { mailbox, uid } => ReadValue::Get { mailbox: mailbox@, uid },
        }
    }
}

impl ReadValue {
    /// The mailbox to select.
    pub open spec fn mailbox(self) -> Seq<char> {
        match self {
            ReadValue::Search { mailbox, .. } => mailbox,
            ReadValue::Get { mailbox, .. } => mailbox,
        }
    }
}

impl ReadRequest {
    fn mailbox(&self) -> (r: &str)
        ensures
            r@ == self.deep_view().mailbox(),
    {
        match self {
            ReadRequest::Search { mailbox, .. } => mailbox.as_str(),
            ReadRequest::Get { mailbox, .. } => mailbox.as_str(),
        }
    }
}

/// What a read gives.
#[derive(Debug)]
pub enum ReadResult {
    Found(SearchResults),
    Message(FullMessage),
}

/// What a `ReadResult` holds: summaries and the number of matches, or a message.
#[verifier::ext_equal]
pub enum ResultValue {
    Found(Seq<SummaryValue>, usize),
    Message(FullValue),
}

impl DeepView for ReadResult {
    type V = ResultValue;

    open spec fn deep_view(&self) -> ResultValue {
        match *self {
            ReadResult::Found(found) => ResultValue::Found(
                found.summaries.deep_view(),
                found.total,
            ),
            ReadResult::Message(m) => ResultValue::Message(m.deep_view()),
        }
    }
}

/// How far a read has come: what it waits for, or what it came to.
#[derive(Debug)]
pub enum Stage {
    /// Whether there is a warm session.
    Warm,
    /// Whether the warm session still answers.
    Probe,
    /// A new session.
    Open,
    /// The mailbox.
    Select,
    /// The messages that match.
    Search,
    /// These messages, of so many that matched.
    Fetch { total: usize, uids: Vec<u32> },
    /// Nothing: it is over.
    Done(Result<ReadResult, GatewayError>),
}

/// What a `Stage` is.
#[verifier::ext_equal]
pub enum StageValue {
    Warm,
    Probe,
    Open,
    Select,
    Search,
    Fetch { total: usize, uids: Seq<u32> },
    Done(Result<ResultValue, (ErrorKind, Seq<char>)>),
}

impl DeepView for Stage {
    type V = StageValue;

    open spec fn deep_view(&self) -> StageValue {
        match *self {
            Stage::Warm => StageValue::Warm,
            Stage::Probe => StageValue::Probe,
            Stage::Open => StageValue::Open,
            Stage::Select => StageValue::Select,
            Stage::Search => StageValue::Search,
            Stage::Fetch { total, uids } => StageValue::Fetch { total, uids: uids@ },
            Stage::Done(result) => StageValue::Done(error::outcome(result)),
        }
    }
}

/// What is to be done next.
#[derive(Debug, PartialEq, Eq)]
pub enum ReadAction {
    /// Take a warm session, if there is one.
    TakeWarm,
    /// See whether the warm session answers; if not, close it.
    Probe,
    /// Connect and log in.
    Open,
    /// Select this mailbox.
    Select(String),
    /// Search for this.
    Search(String),
    /// Fetch this set of UIDs.
    Fetch(String),
    /// Nothing. The session, if there is one, goes back to the pool if `keep`, and is
    /// closed otherwise.
    Finished { keep: bool },
}

/// What a `ReadAction` is.
#[verifier::ext_equal]
pub enum ActionValue {
    TakeWarm,
    Probe,
    Open,
    Select(Seq<char>),
    Search(Seq<char>),
    Fetch(Seq<char>),
    Finished { keep: bool },
}

impl DeepView for ReadAction {
    type V = ActionValue;

    open spec fn deep_view(&self) -> ActionValue {
        match *self {
            ReadAction::TakeWarm => ActionValue::TakeWarm,
            ReadAction::Probe => ActionValue::Probe,
            ReadAction::Open => ActionValue::Open,
            ReadAction::Select(mailbox) => ActionValue::Select(mailbox@),
            ReadAction::Search(query) => ActionValue::Search(query@),
            ReadAction::Fetch(set) => ActionValue::Fetch(set@),
            ReadAction::Finished { keep } => ActionValue::Finished { keep },
        }
    }
}

/// What came of an action.
#[derive(Debug)]
pub enum ReadReply {
    /// Whether there was a warm session.
    Warm(bool),
    /// Whether the warm session answered.
    Alive(bool),
    /// The new session is there.
    Opened,
    /// No connection could be made.
    NotConnected(ConnectFailure),
    /// The login failed.
    NotLoggedIn(ImapFailure),
    /// The mailbox is selected.
    Selected,
    /// The UIDs of the messages that match, in any order.
    Found(Vec<u32>),
    /// What was fetched: UID and bytes of each item, as far as it has them.
    Fetched(Vec<(Option<u32>, Option<Vec<u8>>)>),
    /// The command failed.
    Failed(ImapFailure),
}

/// A read on its way.
#[derive(Debug)]
pub struct ReadRun {
    target: HostPort,
    request: ReadRequest,
    stage: Stage,
    open: bool,
}

/// What a `ReadRun` is.
#[verifier::ext_equal]
pub struct RunValue {
    /// The server.
    pub target: (Seq<char>, u16),
    /// What is to be read.
    pub request: ReadValue,
    /// How far it has come.
    pub stage: StageValue,
    /// Whether there is a session that is in use.
    pub open: bool,
}

impl DeepView for ReadRun {
    type V = RunValue;

    closed spec fn deep_view(&self) -> RunValue {
        RunValue {
            target: self.target.deep_view(),
            request: self.request.deep_view(),
            stage: self.stage.deep_view(),
            open: self.open,
        }
    }
}

/// A read that has not begun.
pub open spec fn begun(target: (Seq<char>, u16), request: ReadValue) -> RunValue {
    RunValue { target, request, stage: StageValue::Warm, open: false }
}

impl RunValue {
    /// Whether the session is kept once the read is over: there has to be one, and the
    /// read may not have come to an error after which it cannot be trusted.
    pub open spec fn keeps(self) -> bool {
        self.open && match self.stage {
            StageValue::Done(Ok(_)) => true,
            StageValue::Done(Err(e)) => !imap::is_transport(e.0),
            _ => false,
        }
    }

    /// What is to be done next.
    pub open spec fn action(self) -> ActionValue {
        match self.stage {
            StageValue::Warm => ActionValue::TakeWarm,
            StageValue::Probe => ActionValue::Probe,
            StageValue::Open => ActionValue::Open,
            StageValue::Select => ActionValue::Select(self.request.mailbox()),
            StageValue::Search => match self.request {
                ReadValue::Search { query, .. } => ActionValue::Search(query),
                ReadValue::Get { .. } => ActionValue::Finished { keep: false },
            },
            StageValue::Fetch { uids, .. } => ActionValue::Fetch(imap::set_text(uids)),
            StageValue::Done(_) => ActionValue::Finished { keep: self.keeps() },
        }
    }

    /// The read with an error as its end.
    pub open spec fn failed(self, e: (ErrorKind, Seq<char>)) -> RunValue {
        RunValue { stage: StageValue::Done(Err(e)), ..self }
    }

    /// The read once a mailbox is selected: a search goes on to search, and a message is
    /// fetched at once.
    pub open spec fn selected(self) -> RunValue {
        match self.request {
            ReadValue::Search { .. } => RunValue { stage: StageValue::Search, ..self },
            ReadValue::Get { uid, .. } => RunValue {
                stage: StageValue::Fetch { total: 0, uids: seq![uid] },
                ..self
            },
        }
    }

    /// The read once the messages that match are known: the newest are fetched, and where
    /// none is, it is over.
    pub open spec fn found(self, uids: Seq<u32>) -> RunValue {
        match self.request {
            ReadValue::Get { .. } => self,
            ReadValue::Search { limit, .. } => {
                let wanted = imap::newest(uids, limit as nat);
                if wanted.len() == 0 {
                    RunValue {
                        stage: StageValue::Done(
                            Ok(ResultValue::Found(Seq::empty(), uids.len() as usize)),
                        ),
                        ..self
                    }
                } else {
                    RunValue {
                        stage: StageValue::Fetch { total: uids.len() as usize, uids: wanted },
                        ..self
                    }
                }
            },
        }
    }

    /// The read once messages have been fetched.
    pub open spec fn fetched(self, total: usize, raws: Seq<(u32, Seq<u8>)>) -> RunValue {
        RunValue {
            stage: StageValue::Done(
                match self.request {
                    ReadValue::Search { .. } => Ok(
                        ResultValue::Found(imap::summaries_of(raws), total),
                    ),
                    ReadValue::Get { uid, .. } => match imap::got(uid, raws) {
                        Ok(m) => Ok(ResultValue::Message(m)),
                        Err(e) => Err(e),
                    },
                },
            ),
            ..self
        }
    }

    /// The read after a reply. One that does not fit the stage is passed over.
    pub open spec fn after(self, reply: ReadReply) -> RunValue {
        match (self.stage, reply) {
            (StageValue::Warm, ReadReply::Warm(there)) => RunValue {
                stage: if there {
                    StageValue::Probe
                } else {
                    StageValue::Open
                },
                ..self
            },
            (StageValue::Probe, ReadReply::Alive(alive)) => if alive {
                RunValue { stage: StageValue::Select, open: true, ..self }
            } else {
                RunValue { stage: StageValue::Open, ..self }
            },
            (StageValue::Open, ReadReply::Opened) => RunValue {
                stage: StageValue::Select,
                open: true,
                ..self
            },
            (StageValue::Open, ReadReply::NotConnected(f)) => self.failed(
                imap::connect_failed(self.target.0, self.target.1, f),
            ),
            (StageValue::Open, ReadReply::NotLoggedIn(f)) => self.failed(imap::login_failed(f)),
            (StageValue::Select, ReadReply::Selected) => self.selected(),
            (StageValue::Select, ReadReply::Failed(f)) => self.failed(
                imap::select_failed(f, self.request.mailbox()),
            ),
            (StageValue::Search, ReadReply::Found(uids)) => self.found(uids@),
            (StageValue::Search, ReadReply::Failed(f)) => self.failed(imap::command_failed(f)),
            (StageValue::Fetch { total, .. }, ReadReply::Fetched(items)) => self.fetched(
                total,
                imap::whole_messages(items.deep_view()),
            ),
            (StageValue::Fetch { .. }, ReadReply::Failed(f)) => self.failed(
                imap::command_failed(f),
            ),
            _ => self,
        }
    }
}

impl ReadRun {
    /// A read from `target` that has not begun.
    pub fn new(target: HostPort, request: ReadRequest) -> (r: Self)
        ensures
            r.deep_view() == begun(target.deep_view(), request.deep_view()),
    {
        ReadRun { target, request, stage: Stage::Warm, open: false }
    }

    /// What is to be done next.
    pub fn action(&self) -> (r: ReadAction)
        ensures
            r.deep_view() == self.deep_view().action(),
    {
        match &self.stage {
            Stage::Warm => ReadAction::TakeWarm,
            Stage::Probe => ReadAction::Probe,
            Stage::Open => ReadAction::Open,
            Stage::Select => ReadAction::Select(self.request.mailbox().to_owned()),
            Stage::Search => match &self.request {
                ReadRequest::Search { query, .. } => ReadAction::Search(query.clone()),
                ReadRequest::Get { .. } => ReadAction::Finished { keep: false },
            },
            Stage::Fetch { uids, .. } => ReadAction::Fetch(imap::uid_set(uids)),
            Stage::Done(result) => ReadAction::Finished {
                keep: self.open && imap::keeps_session(result),
            },
        }
    }

    /// Takes what came of the action.
    pub fn answer(self, reply: ReadReply) -> (r: Self)
        ensures
            r.deep_view() == self.deep_view().after(reply),
    {
        let ReadRun { target, request, stage, open } = self;
        let (stage, open) = match (stage, reply) {
            (Stage::Warm, ReadReply::Warm(there)) => if there {
                (Stage::Probe, open)
            } else {
                (Stage::Open, open)
            },
            (Stage::Probe, ReadReply::Alive(alive)) => if alive {
                (Stage::Select, true)
            } else {
                (Stage::Open, open)
            },
            (Stage::Open, ReadReply::Opened) => (Stage::Select, true),
            (Stage::Open, ReadReply::NotConnected(f)) => (
                Stage::Done(Err(imap::connect_error(&target, f))),
                open,
            ),
            (Stage::Open, ReadReply::NotLoggedIn(f)) => (
                Stage::Done(Err(imap::map_login_err(f))),
                open,
            ),
            (Stage::Select, ReadReply::Selected) => match &request {
                ReadRequest::Search { .. } => (Stage::Search, open),
                ReadRequest::Get { uid, .. } => {
                    let uids: Vec<u32> = vec![*uid];
                    assert(uids@ =~= seq![*uid]);
                    (Stage::Fetch { total: 0, uids }, open)
                },
            },
            (Stage::Select, ReadReply::Failed(f)) => (
                Stage::Done(Err(imap::map_select_err(f, request.mailbox()))),
                open,
            ),
            (Stage::Search, ReadReply::Found(uids)) => match &request {
                ReadRequest::Get { .. } => (Stage::Search, open),
                ReadRequest::Search { limit, .. } => {
                    let plan = imap::plan_fetch(&uids, *limit);
                    if plan.uids.len() == 0 {
                        let none: Vec<imap::RawMessage> = Vec::new();
                        let empty = imap::search_results(plan.total, &none);
                        assert(empty.summaries.deep_view() =~= Seq::empty());
                        (Stage::Done(Ok(ReadResult::Found(empty))), open)
                    } else {
                        (Stage::Fetch { total: plan.total, uids: plan.uids }, open)
                    }
                },
            },
            (Stage::Search, ReadReply::Failed(f)) => (
                Stage::Done(Err(imap::map_command_err(f))),
                open,
            ),
            (Stage::Fetch { total, .. }, ReadReply::Fetched(items)) => {
                let raws = imap::raw_messages(items);
                match &request {
                    ReadRequest::Search { .. } => (
                        Stage::Done(Ok(ReadResult::Found(imap::search_results(total, &raws)))),
                        open,
                    ),
                    ReadRequest::Get { uid, .. } => match imap::get_result(*uid, &raws) {
                        Ok(m) => (Stage::Done(Ok(ReadResult::Message(m))), open),
                        Err(e) => (Stage::Done(Err(e)), open),
                    },
                }
            },
            (Stage::Fetch { .. }, ReadReply::Failed(f)) => (
                Stage::Done(Err(imap::map_command_err(f))),
                open,
            ),
            (stage, _) => (stage, open),
        };
        ReadRun { target, request, stage, open }
    }

    /// What the read came to; `None` while it is not over.
    pub fn finish(self) -> (r: Option<Result<ReadResult, GatewayError>>)
        ensures
            match self.deep_view().stage {
                StageValue::Done(result) => r matches Some(x) && error::outcome(x) == result,
                _ => r is None,
            },
    {
        match self.stage {
            Stage::Done(result) => Some(result),
            _ => None,
        }
    }
}

// ---------------------------------------------------------------------------
// Laws
// ---------------------------------------------------------------------------

/// How many replies a read needs at most to be over.
pub open spec fn replies_left(stage: StageValue) -> nat {
    match stage {
        StageValue::Warm => 6,
        StageValue::Probe => 5,
        StageValue::Open => 4,
        StageValue::Select => 3,
        StageValue::Search => 2,
        StageValue::Fetch { .. } => 1,
        StageValue::Done(_) => 0,
    }
}

/// A reply that an action can come to.
pub open spec fn answers(action: ActionValue, reply: ReadReply) -> bool {
    match action {
        ActionValue::TakeWarm => reply is Warm,
        ActionValue::Probe => reply is Alive,
        ActionValue::Open => reply is Opened || reply is NotConnected || reply is NotLoggedIn,
        ActionValue::Select(_) => reply is Selected || reply is Failed,
        ActionValue::Search(_) => reply is Found || reply is Failed,
        ActionValue::Fetch(_) => reply is Fetched || reply is Failed,
        ActionValue::Finished { .. } => false,
    }
}

/// Every reply to what was asked brings a read closer to its end.
pub proof fn law_every_reply_advances(run: RunValue, reply: ReadReply)
    requires
        answers(run.action(), reply),
    ensures
        replies_left(run.after(reply).stage) < replies_left(run.stage),
{
}

/// A warm session that does not answer counts as none: the read goes on as if there had
/// been no warm session.
pub proof fn law_a_dead_session_is_a_miss(target: (Seq<char>, u16), request: ReadValue)
    ensures
        begun(target, request).after(ReadReply::Warm(true)).after(ReadReply::Alive(false))
            == begun(target, request).after(ReadReply::Warm(false)),
{
}

/// With a session, warm or new, a search selects the mailbox, searches, and fetches the
/// newest messages, never more than the limit; it gives their summaries and the number of
/// all that matched. Where nothing is to be fetched, nothing is.
pub proof fn law_a_search_goes_by_the_replies(
    run: RunValue,
    uids: Vec<u32>,
    items: Vec<(Option<u32>, Option<Vec<u8>>)>,
)
    requires
        run.stage == StageValue::Select,
        run.request is Search,
    ensures
        ({
            let limit = run.request->Search_limit as nat;
            let searching = run.after(ReadReply::Selected);
            let found = searching.after(ReadReply::Found(uids));
            let wanted = imap::newest(uids@, limit);
            &&& run.action() == ActionValue::Select(run.request.mailbox())
            &&& searching.action() == ActionValue::Search(run.request->query)
            &&& wanted.len() <= limit
            &&& wanted.len() > 0 ==> {
                &&& found.action() == ActionValue::Fetch(imap::set_text(wanted))
                &&& found.after(ReadReply::Fetched(items)).stage == StageValue::Done(
                    Ok(
                        ResultValue::Found(
                            imap::summaries_of(imap::whole_messages(items.deep_view())),
                            uids@.len() as usize,
                        ),
                    ),
                )
            }
            &&& wanted.len() == 0 ==> found.stage == StageValue::Done(
                Ok(ResultValue::Found(Seq::empty(), uids@.len() as usize)),
            )
        }),
{
    imap::law_fetch_is_bounded_and_newest(uids@, run.request->Search_limit as nat);
}

/// With a session, warm or new, a get selects the mailbox and fetches the one message; it
/// gives that message, or says that there is none.
pub proof fn law_a_get_goes_by_the_replies(
    run: RunValue,
    items: Vec<(Option<u32>, Option<Vec<u8>>)>,
)
    requires
        run.stage == StageValue::Select,
        run.request is Get,
    ensures
        ({
            let uid = run.request->uid;
            let raws = imap::whole_messages(items.deep_view());
            let fetching = run.after(ReadReply::Selected);
            &&& run.action() == ActionValue::Select(run.request.mailbox())
            &&& fetching.action() == ActionValue::Fetch(imap::set_text(seq![uid]))
            &&& fetching.after(ReadReply::Fetched(items)).stage == StageValue::Done(
                match imap::got(uid, raws) {
                    Ok(m) => Ok(ResultValue::Message(m)),
                    Err(e) => Err(e),
                },
            )
        }),
{
}

/// A session is kept exactly where one was in use and the read did not come to a fault of
/// the transport: a rejected search and a missing mailbox or message cost nothing.
pub proof fn law_only_sound_sessions_are_kept(
    run: RunValue,
    outcome: Result<ResultValue, (ErrorKind, Seq<char>)>,
)
    requires
        run.stage == StageValue::Done(outcome),
    ensures
        run.keeps() <==> run.open && (outcome matches Err(e) ==> !imap::is_transport(e.0)),
        !run.open ==> !run.keeps(),
{
}

/// Once a session is in use it stays in use to the end, and before that nothing is asked
/// of a mailbox.
pub proof fn law_no_command_without_a_session(
    target: (Seq<char>, u16),
    request: ReadValue,
    run: RunValue,
    reply: ReadReply,
)
    ensures
        begun(target, request).sound(),
        run.sound() ==> run.after(reply).sound(),
        run.sound() && (run.action() is Select || run.action() is Search || run.action() is Fetch)
            ==> run.open,
{
}

impl RunValue {
    /// What holds of every read: a session is in use exactly from the selection of the
    /// mailbox on, and only a search searches.
    pub open spec fn sound(self) -> bool {
        &&& self.stage is Warm || self.stage is Probe || self.stage is Open ==> !self.open
        &&& self.stage is Select || self.stage is Search || self.stage is Fetch ==> self.open
        &&& self.stage is Search ==> self.request is Search
    }
}

/// A read begins by asking for a warm session; one that is there is tried before it is used,
/// and where there is none, a new one is opened. With a session the mailbox of the request
/// is selected.
pub proof fn law_how_a_read_gets_its_session(target: (Seq<char>, u16), request: ReadValue)
    ensures
        ({
            let start = begun(target, request);
            let warm = start.after(ReadReply::Warm(true));
            let cold = start.after(ReadReply::Warm(false));
            let mailbox = match request {
                ReadValue::Search { mailbox, .. } => mailbox,
                ReadValue::Get { mailbox, .. } => mailbox,
            };
            &&& start.action() == ActionValue::TakeWarm
            &&& warm.action() == ActionValue::Probe
            &&& cold.action() == ActionValue::Open
            &&& warm.after(ReadReply::Alive(true)).action() == ActionValue::Select(mailbox)
            &&& cold.after(ReadReply::Opened).action() == ActionValue::Select(mailbox)
            &&& warm.after(ReadReply::Alive(true)).open
            &&& cold.after(ReadReply::Opened).open
        }),
{
}

/// Whatever fails ends the read with the error for that failure, and no session is kept that
/// never was or that failed underneath.
pub proof fn law_a_failure_ends_the_read(run: RunValue, c: ConnectFailure, f: ImapFailure)
    ensures
        run.stage is Open ==> run.after(ReadReply::NotConnected(c)).stage == StageValue::Done(
            Err(imap::connect_failed(run.target.0, run.target.1, c)),
        ) && run.after(ReadReply::NotLoggedIn(f)).stage == StageValue::Done(
            Err(imap::login_failed(f)),
        ),
        run.stage is Select ==> run.after(ReadReply::Failed(f)).stage == StageValue::Done(
            Err(imap::select_failed(f, run.request.mailbox())),
        ),
        run.stage is Search || run.stage is Fetch ==> run.after(ReadReply::Failed(f)).stage
            == StageValue::Done(Err(imap::command_failed(f))),
        run.sound() && run.stage is Open ==> !run.after(ReadReply::NotConnected(c)).keeps()
            && !run.after(ReadReply::NotLoggedIn(f)).keeps(),
        run.sound() && (run.stage is Search || run.stage is Fetch) ==> (run.after(
            ReadReply::Failed(f),
        ).keeps() <==> f.kind == imap::FailureKind::No || f.kind == imap::FailureKind::Bad || f.kind
            == imap::FailureKind::Validate),
{
}

/// A reply changes neither the server nor the request, and one that was not asked for
/// changes nothing at all.
pub proof fn law_a_read_stays_the_same_read(run: RunValue, reply: ReadReply)
    ensures
        run.after(reply).target == run.target,
        run.after(reply).request == run.request,
        !answers(run.action(), reply) && run.sound() ==> run.after(reply) == run,
{
}

/// A search gives as many rows as it may: where everything that was asked for is fetched, it
/// gives one row for each of the newest messages that matched, up to the limit, and tells
/// how many matched in all.
pub proof fn law_a_search_gives_all_the_rows_it_may(
    run: RunValue,
    uids: Vec<u32>,
    items: Vec<(Option<u32>, Option<Vec<u8>>)>,
)
    requires
        run.stage == StageValue::Search,
        run.request is Search,
        uids@.len() > 0,
        run.request->Search_limit > 0,
        imap::whole_messages(items.deep_view()).len() == imap::newest(
            uids@,
            run.request->Search_limit as nat,
        ).len(),
    ensures
        run.after(ReadReply::Found(uids)).after(
            ReadReply::Fetched(items),
        ).stage matches StageValue::Done(Ok(ResultValue::Found(rows, total))) && total
            == uids@.len() && rows.len() == if run.request->Search_limit < uids@.len() {
            run.request->Search_limit as nat
        } else {
            uids@.len()
        },
{
    imap::law_the_limit_is_used_up(uids@, run.request->Search_limit as nat);
    imap::law_arranging_keeps_all(imap::whole_messages(items.deep_view()));
    let raws = imap::whole_messages(items.deep_view());
    broadcast use vstd::seq_lib::group_to_multiset_ensures;

    assert(imap::arranged(raws).to_multiset().len() == imap::arranged(raws).len());
    assert(raws.to_multiset().len() == raws.len());
    assert(uids@.len() == uids.len());
}

/// What is said of a value is said of what it holds: every field and every case stands
/// under its own name, and nothing is left out.
pub proof fn law_views_say_what_the_values_hold(
    read_request: ReadRequest,
    read_result: ReadResult,
    stage: Stage,
    read_action: ReadAction,
)
    ensures
        match read_request {
            ReadRequest::Search { mailbox, query, limit } => read_request.deep_view()
                == (ReadValue::Search { mailbox: mailbox@, query: query@, limit }),
            ReadRequest::Get { mailbox, uid } => read_request.deep_view()
                == (ReadValue::Get { mailbox: mailbox@, uid }),
        },
        match read_result {
            ReadResult::Found(found) => read_result.deep_view()
                == ResultValue::Found(found.summaries.deep_view(), found.total),
            ReadResult::Message(m) => read_result.deep_view()
                == ResultValue::Message(m.deep_view()),
        },
        match stage {
            Stage::Warm => stage.deep_view() == StageValue::Warm,
            Stage::Probe => stage.deep_view() == StageValue::Probe,
            Stage::Open => stage.deep_view() == StageValue::Open,
            Stage::Select => stage.deep_view() == StageValue::Select,
            Stage::Search => stage.deep_view() == StageValue::Search,
            Stage::Fetch { total, uids } => stage.deep_view()
                == (StageValue::Fetch { total, uids: uids@ }),
            Stage::Done(result) => stage.deep_view() == StageValue::Done(error::outcome(result)),
        },
        match read_action {
            ReadAction::TakeWarm => read_action.deep_view() == ActionValue::TakeWarm,
            ReadAction::Probe => read_action.deep_view() == ActionValue::Probe,
            ReadAction::Open => read_action.deep_view() == ActionValue::Open,
            ReadAction::Select(mailbox) => read_action.deep_view() == ActionValue::Select(mailbox@),
            ReadAction::Search(query) => read_action.deep_view() == ActionValue::Search(query@),
            ReadAction::Fetch(set) => read_action.deep_view() == ActionValue::Fetch(set@),
            ReadAction::Finished { keep } => read_action.deep_view()
                == (ActionValue::Finished { keep }),
        },
{
}

} // verus!
