//! The ladder of sources that is climbed to derive a provider's targets.

use vstd::prelude::*;

use crate::auth;
use crate::auth::HostPort;
use crate::autoconfig;
use crate::autoconfig::{ClientConfig, ConfigValue, MailServers, ServersValue, SrvRecord};
use crate::text;

verus! {

// ---------------------------------------------------------------------------
// Where configurations are fetched
// ---------------------------------------------------------------------------

/// The query that names the user to a provider's own server.
pub open spec fn email_query(email: Option<Seq<char>>) -> Seq<char> {
    match email {
        Some(e) => if e.contains('@') {
            "?emailaddress="@ + e
        } else {
            Seq::empty()
        },
        None => Seq::empty(),
    }
}

/// The configuration that the provider hosts.
pub open spec fn hosted_url(domain: Seq<char>, email: Option<Seq<char>>) -> Seq<char> {
    "https://autoconfig."@ + domain + "/mail/config-v1.1.xml"@ + email_query(email)
}

/// The well-known configuration.
pub open spec fn well_known_url(domain: Seq<char>, email: Option<Seq<char>>) -> Seq<char> {
    "https://"@ + domain + "/.well-known/autoconfig/mail/config-v1.1.xml"@ + email_query(email)
}

/// The ISPDB's configuration. It never carries the user's address.
pub open spec fn ispdb_url(domain: Seq<char>) -> Seq<char> {
    autoconfig::ISPDB_BASE@ + "/"@ + domain
}

/// The places where a configuration is looked for, in the order in which they are tried.
pub fn http_config_urls(domain: &str, email: &Option<String>) -> (r: Vec<String>)
    ensures
        r.deep_view() == seq![
            hosted_url(domain@, email.deep_view()),
            well_known_url(domain@, email.deep_view()),
            ispdb_url(domain@),
        ],
{
    let mut query = String::new();
    if let Some(e) = email {
        if text::has_char(text::to_chars(e.as_str()).as_slice(), '@') {
            query.append("?emailaddress=");
            query.append(e.as_str());
            assert(query@ =~= email_query(email.deep_view()));
        }
    }
    assert(query@ =~= email_query(email.deep_view()));
    let mut hosted = text::concat3("https://autoconfig.", domain, "/mail/config-v1.1.xml");
    hosted.append(query.as_str());
    let mut well_known = text::concat3(
        "https://",
        domain,
        "/.well-known/autoconfig/mail/config-v1.1.xml",
    );
    well_known.append(query.as_str());
    let mut out: Vec<String> = Vec::new();
    out.push(hosted);
    out.push(well_known);
    out.push(text::concat3(autoconfig::ISPDB_BASE, "/", domain));
    assert(out.deep_view() =~= seq![
        hosted_url(domain@, email.deep_view()),
        well_known_url(domain@, email.deep_view()),
        ispdb_url(domain@),
    ]);
    out
}

// ---------------------------------------------------------------------------
// What the sources say, all at once
// ---------------------------------------------------------------------------

/// What the network would reply: the configuration at a URL, SRV records by name and mail
/// exchangers by domain, best first.
pub struct Network {
    pub config: spec_fn(Seq<char>) -> Option<ConfigValue>,
    pub srv: spec_fn(Seq<char>) -> Seq<(Seq<char>, u16)>,
    pub mx: spec_fn(Seq<char>) -> Seq<Seq<char>>,
}

/// The targets in a configuration, if there is one.
pub open spec fn config_targets(config: Option<ConfigValue>) -> ServersValue {
    match config {
        Some(c) => autoconfig::config_servers(c),
        None => autoconfig::no_servers(),
    }
}

/// The first of `records`.
pub open spec fn first_record(records: Seq<(Seq<char>, u16)>) -> Option<(Seq<char>, u16)> {
    if records.len() > 0 {
        Some(records[0])
    } else {
        None
    }
}

/// The first record under `tls`, else the first under `plain`.
pub open spec fn srv_side(net: Network, tls: Seq<char>, plain: Seq<char>) -> Option<
    (Seq<char>, u16),
> {
    match first_record((net.srv)(tls)) {
        Some(t) => Some(t),
        None => first_record((net.srv)(plain)),
    }
}

/// The targets in the SRV records, records for implicit TLS preferred.
pub open spec fn srv_targets(net: Network, domain: Seq<char>) -> ServersValue {
    ServersValue {
        imap: srv_side(net, "_imaps._tcp."@ + domain, "_imap._tcp."@ + domain),
        smtp: srv_side(net, "_submissions._tcp."@ + domain, "_submission._tcp."@ + domain),
    }
}

/// The domain of the best mail exchanger, where it is another public domain.
pub open spec fn exchanger_domain(domain: Seq<char>, exchangers: Seq<Seq<char>>) -> Option<
    Seq<char>,
> {
    if exchangers.len() == 0 {
        None
    } else {
        let d = autoconfig::registrable(exchangers[0]);
        if d == domain || !autoconfig::is_public(d) {
            None
        } else {
            Some(d)
        }
    }
}

/// The targets in the ISPDB's configuration of the mail exchanger's domain.
pub open spec fn mx_targets(net: Network, domain: Seq<char>) -> ServersValue {
    match exchanger_domain(domain, (net.mx)(domain)) {
        Some(d) => config_targets((net.config)(ispdb_url(d))),
        None => autoconfig::no_servers(),
    }
}

/// `acc` where it is complete, else `acc` with what is missing taken from `next`.
pub open spec fn filled(acc: ServersValue, next: ServersValue) -> ServersValue {
    if acc.complete() {
        acc
    } else {
        acc.or(next)
    }
}

/// The targets of `domain`: each source in turn fills what those before it left open.
pub open spec fn derived_targets(net: Network, domain: Seq<char>, email: Option<Seq<char>>) -> ServersValue {
    let none = autoconfig::no_servers();
    let hosted = filled(none, config_targets((net.config)(hosted_url(domain, email))));
    let known = filled(hosted, config_targets((net.config)(well_known_url(domain, email))));
    let listed = filled(known, config_targets((net.config)(ispdb_url(domain))));
    let looked_up = filled(listed, srv_targets(net, domain));
    filled(looked_up, mx_targets(net, domain))
}

// ---------------------------------------------------------------------------
// The ladder, one question at a time
// ---------------------------------------------------------------------------

/// Where on the ladder a derivation stands.
#[derive(Debug, Clone, Copy, PartialEq, Eq, Structural)]
pub enum Rung {
    /// The configuration that the provider hosts.
    Hosted,
    /// The well-known configuration.
    WellKnown,
    /// The ISPDB.
    Ispdb,
    /// SRV records of IMAP over TLS.
    Imaps,
    /// SRV records of IMAP.
    Imap,
    /// SRV records of submission over TLS.
    Submissions,
    /// SRV records of submission.
    Submission,
    /// Mail exchangers.
    Mx,
    /// The ISPDB, for the mail exchanger's domain.
    MxIspdb,
    /// Nothing more to ask.
    Done,
}

/// What is needed from the network next.
#[derive(Debug, PartialEq, Eq)]
pub enum LadderAction {
    /// The configuration at this URL.
    Fetch(String),
    /// The SRV records of this name.
    Srv(String),
    /// The mail exchangers of this domain.
    Mx(String),
    /// Nothing: the derivation is at its end.
    Finished,
}

/// The network's reply. A failure is a reply that holds nothing.
#[derive(Debug)]
pub enum LadderAnswer {
    Config(Option<ClientConfig>),
    Srv(Vec<SrvRecord>),
    Mx(Vec<String>),
}

/// What a `LadderAction` holds.
#[verifier::ext_equal]
pub enum ActionValue {
    Fetch(Seq<char>),
    Srv(Seq<char>),
    Mx(Seq<char>),
    Finished,
}

/// What a `LadderAnswer` holds.
#[verifier::ext_equal]
pub enum AnswerValue {
    Config(Option<ConfigValue>),
    Srv(Seq<(Seq<char>, u16)>),
    Mx(Seq<Seq<char>>),
}

impl DeepView for LadderAction {
    type V = ActionValue;

    open spec fn deep_view(&self) -> ActionValue {
        match *self {
            LadderAction::Fetch(url) => ActionValue::Fetch(url@),
            LadderAction::Srv(name) => ActionValue::Srv(name@),
            LadderAction::Mx(domain) => ActionValue::Mx(domain@),
            LadderAction::Finished => ActionValue::Finished,
        }
    }
}

impl DeepView for LadderAnswer {
    type V = AnswerValue;

    open spec fn deep_view(&self) -> AnswerValue {
        match *self {
            LadderAnswer::Config(c) => AnswerValue::Config(c.deep_view()),
            LadderAnswer::Srv(records) => AnswerValue::Srv(records.deep_view()),
            LadderAnswer::Mx(hosts) => AnswerValue::Mx(hosts.deep_view()),
        }
    }
}

impl AnswerValue {
    /// The configuration in a reply.
    pub open spec fn config(self) -> Option<ConfigValue> {
        match self {
            AnswerValue::Config(c) => c,
            _ => None,
        }
    }

    /// The first SRV record in a reply.
    pub open spec fn record(self) -> Option<(Seq<char>, u16)> {
        match self {
            AnswerValue::Srv(records) => first_record(records),
            _ => None,
        }
    }

    /// The mail exchangers in a reply.
    pub open spec fn exchangers(self) -> Seq<Seq<char>> {
        match self {
            AnswerValue::Mx(hosts) => hosts,
            _ => Seq::empty(),
        }
    }
}

/// A derivation under way.
#[derive(Debug)]
pub struct Ladder {
    pub domain: String,
    pub email: Option<String>,
    pub rung: Rung,
    /// What the rungs so far have given.
    pub found: MailServers,
    /// What the SRV records so far have given.
    pub records: MailServers,
    /// The domain of the mail exchanger, on the last rung.
    pub exchanger: String,
}

/// What a `Ladder` holds.
#[verifier::ext_equal]
pub struct LadderValue {
    pub domain: Seq<char>,
    pub email: Option<Seq<char>>,
    pub rung: Rung,
    pub found: ServersValue,
    pub records: ServersValue,
    pub exchanger: Seq<char>,
}

impl DeepView for Ladder {
    type V = LadderValue;

    open spec fn deep_view(&self) -> LadderValue {
        LadderValue {
            domain: self.domain@,
            email: self.email.deep_view(),
            rung: self.rung,
            found: self.found.deep_view(),
            records: self.records.deep_view(),
            exchanger: self.exchanger@,
        }
    }
}

/// A derivation at its start.
pub open spec fn ladder_start(domain: Seq<char>, email: Option<Seq<char>>) -> LadderValue {
    LadderValue {
        domain,
        email,
        rung: Rung::Hosted,
        found: autoconfig::no_servers(),
        records: autoconfig::no_servers(),
        exchanger: Seq::empty(),
    }
}

impl LadderValue {
    /// What is needed next.
    pub open spec fn action(self) -> ActionValue {
        match self.rung {
            Rung::Hosted => ActionValue::Fetch(hosted_url(self.domain, self.email)),
            Rung::WellKnown => ActionValue::Fetch(well_known_url(self.domain, self.email)),
            Rung::Ispdb => ActionValue::Fetch(ispdb_url(self.domain)),
            Rung::Imaps => ActionValue::Srv("_imaps._tcp."@ + self.domain),
            Rung::Imap => ActionValue::Srv("_imap._tcp."@ + self.domain),
            Rung::Submissions => ActionValue::Srv("_submissions._tcp."@ + self.domain),
            Rung::Submission => ActionValue::Srv("_submission._tcp."@ + self.domain),
            Rung::Mx => ActionValue::Mx(self.domain),
            Rung::MxIspdb => ActionValue::Fetch(ispdb_url(self.exchanger)),
            Rung::Done => ActionValue::Finished,
        }
    }

    /// One rung up, or at the end where both targets are known.
    pub open spec fn up(self, found: ServersValue, next: Rung) -> LadderValue {
        LadderValue {
            found,
            rung: if found.complete() {
                Rung::Done
            } else {
                next
            },
            ..self
        }
    }

    /// Where the derivation stands after the reply `a`. A reply to another question is
    /// one that holds nothing.
    pub open spec fn answered(self, a: AnswerValue) -> LadderValue {
        match self.rung {
            Rung::Hosted => self.up(self.found.or(config_targets(a.config())), Rung::WellKnown),
            Rung::WellKnown => self.up(self.found.or(config_targets(a.config())), Rung::Ispdb),
            Rung::Ispdb => self.up(self.found.or(config_targets(a.config())), Rung::Imaps),
            Rung::Imaps => LadderValue {
                records: ServersValue { imap: a.record(), ..self.records },
                rung: if a.record() is Some {
                    Rung::Submissions
                } else {
                    Rung::Imap
                },
                ..self
            },
            Rung::Imap => LadderValue {
                records: ServersValue { imap: a.record(), ..self.records },
                rung: Rung::Submissions,
                ..self
            },
            Rung::Submissions => {
                let records = ServersValue { smtp: a.record(), ..self.records };
                if a.record() is Some {
                    LadderValue { records, ..self }.up(self.found.or(records), Rung::Mx)
                } else {
                    LadderValue { records, rung: Rung::Submission, ..self }
                }
            },
            Rung::Submission => {
                let records = ServersValue { smtp: a.record(), ..self.records };
                LadderValue { records, ..self }.up(self.found.or(records), Rung::Mx)
            },
            Rung::Mx => match exchanger_domain(self.domain, a.exchangers()) {
                Some(d) => LadderValue { exchanger: d, rung: Rung::MxIspdb, ..self },
                None => LadderValue { rung: Rung::Done, ..self },
            },
            Rung::MxIspdb => LadderValue {
                found: self.found.or(config_targets(a.config())),
                rung: Rung::Done,
                ..self
            },
            Rung::Done => self,
        }
    }

    /// The targets in the reply `a` that are not over implicit TLS.
    pub open spec fn plain(self, a: AnswerValue) -> ServersValue {
        match self.rung {
            Rung::Hosted | Rung::WellKnown | Rung::Ispdb | Rung::MxIspdb => match a.config() {
                Some(c) => ServersValue {
                    imap: autoconfig::picked_plain(c.incoming, "imap"@),
                    smtp: autoconfig::picked_plain(c.outgoing, "smtp"@),
                },
                None => autoconfig::no_servers(),
            },
            Rung::Imap => ServersValue { imap: a.record(), smtp: None },
            Rung::Submission => ServersValue { imap: None, smtp: a.record() },
            _ => autoconfig::no_servers(),
        }
    }

    /// How many questions there can still be.
    pub open spec fn left(self) -> nat {
        match self.rung {
            Rung::Hosted => 9,
            Rung::WellKnown => 8,
            Rung::Ispdb => 7,
            Rung::Imaps => 6,
            Rung::Imap => 5,
            Rung::Submissions => 4,
            Rung::Submission => 3,
            Rung::Mx => 2,
            Rung::MxIspdb => 1,
            Rung::Done => 0,
        }
    }
}

fn record_target(a: &LadderAnswer) -> (r: Option<HostPort>)
    ensures
        r.deep_view() == a.deep_view().record(),
{
    match a {
        LadderAnswer::Srv(records) => {
            if records.len() > 0 {
                assert(records.deep_view()[0] == records@[0].deep_view());
                Some(HostPort { host: records[0].host.clone(), port: records[0].port })
            } else {
                None
            }
        },
        _ => None,
    }
}

fn config_found(a: &LadderAnswer) -> (r: MailServers)
    ensures
        r.deep_view() == config_targets(a.deep_view().config()),
{
    match a {
        LadderAnswer::Config(Some(c)) => match autoconfig::parse_autoconfig(c) {
            Some(servers) => servers,
            None => MailServers::default(),
        },
        _ => MailServers::default(),
    }
}

fn other_exchanger(domain: &str, a: &LadderAnswer) -> (r: Option<String>)
    ensures
        r.deep_view() == exchanger_domain(domain@, a.deep_view().exchangers()),
{
    match a {
        LadderAnswer::Mx(hosts) => {
            if hosts.len() == 0 {
                return None;
            }
            assert(hosts.deep_view()[0] == hosts@[0]@);
            let d = autoconfig::registrable_domain(hosts[0].as_str());
            if text::same(d.as_str(), domain) || !autoconfig::is_public_domain(d.as_str()) {
                None
            } else {
                Some(d)
            }
        },
        _ => None,
    }
}

impl Ladder {
    /// A derivation for `domain`; `email`, where it is known, is named to the provider.
    pub fn new(domain: String, email: Option<String>) -> (r: Self)
        ensures
            r.deep_view() == ladder_start(domain@, email.deep_view()),
    {
        Ladder {
            domain,
            email,
            rung: Rung::Hosted,
            found: MailServers::default(),
            records: MailServers::default(),
            exchanger: String::new(),
        }
    }

    /// What is needed from the network next.
    pub fn action(&self) -> (r: LadderAction)
        ensures
            r.deep_view() == self.deep_view().action(),
    {
        let domain = self.domain.as_str();
        match self.rung {
            Rung::Hosted => {
                let urls = http_config_urls(domain, &self.email);
                assert(urls.deep_view().len() == urls@.len());
                assert(urls.deep_view()[0] == urls@[0]@);
                LadderAction::Fetch(urls[0].clone())
            },
            Rung::WellKnown => {
                let urls = http_config_urls(domain, &self.email);
                assert(urls.deep_view().len() == urls@.len());
                assert(urls.deep_view()[1] == urls@[1]@);
                LadderAction::Fetch(urls[1].clone())
            },
            Rung::Ispdb => {
                let urls = http_config_urls(domain, &self.email);
                assert(urls.deep_view().len() == urls@.len());
                assert(urls.deep_view()[2] == urls@[2]@);
                LadderAction::Fetch(urls[2].clone())
            },
            Rung::Imaps => LadderAction::Srv(text::concat("_imaps._tcp.", domain)),
            Rung::Imap => LadderAction::Srv(text::concat("_imap._tcp.", domain)),
            Rung::Submissions => LadderAction::Srv(text::concat("_submissions._tcp.", domain)),
            Rung::Submission => LadderAction::Srv(text::concat("_submission._tcp.", domain)),
            Rung::Mx => LadderAction::Mx(self.domain.clone()),
            Rung::MxIspdb => LadderAction::Fetch(
                text::concat3(autoconfig::ISPDB_BASE, "/", self.exchanger.as_str()),
            ),
            Rung::Done => LadderAction::Finished,
        }
    }

    /// The targets in a reply to `action` that are not over implicit TLS, of which the
    /// operator is to be warned.
    pub fn plain_targets(&self, a: &LadderAnswer) -> (r: MailServers)
        ensures
            r.deep_view() == self.deep_view().plain(a.deep_view()),
    {
        match self.rung {
            Rung::Hosted | Rung::WellKnown | Rung::Ispdb | Rung::MxIspdb => match a {
                LadderAnswer::Config(Some(c)) => MailServers {
                    imap: autoconfig::pick_plain(&c.incoming, "imap"),
                    smtp: autoconfig::pick_plain(&c.outgoing, "smtp"),
                },
                _ => MailServers::default(),
            },
            Rung::Imap => MailServers { imap: record_target(a), smtp: None },
            Rung::Submission => MailServers { imap: None, smtp: record_target(a) },
            _ => MailServers::default(),
        }
    }

    fn climb(&mut self, next: Rung)
        ensures
            final(self).deep_view() == old(self).deep_view().up(old(self).deep_view().found, next),
    {
        self.rung = if self.found.is_complete() {
            Rung::Done
        } else {
            next
        };
    }

    /// Takes the reply to `action`.
    pub fn answer(&mut self, a: LadderAnswer)
        ensures
            final(self).deep_view() == old(self).deep_view().answered(a.deep_view()),
    {
        match self.rung {
            Rung::Hosted => {
                self.found.merge_from(config_found(&a));
                self.climb(Rung::WellKnown);
            },
            Rung::WellKnown => {
                self.found.merge_from(config_found(&a));
                self.climb(Rung::Ispdb);
            },
            Rung::Ispdb => {
                self.found.merge_from(config_found(&a));
                self.climb(Rung::Imaps);
            },
            Rung::Imaps => {
                let record = record_target(&a);
                self.rung = if record.is_some() {
                    Rung::Submissions
                } else {
                    Rung::Imap
                };
                self.records.imap = record;
            },
            Rung::Imap => {
                self.records.imap = record_target(&a);
                self.rung = Rung::Submissions;
            },
            Rung::Submissions => {
                let record = record_target(&a);
                let over_tls = record.is_some();
                self.records.smtp = record;
                if over_tls {
                    self.found.merge_from(self.records.clone());
                    self.climb(Rung::Mx);
                } else {
                    self.rung = Rung::Submission;
                }
            },
            Rung::Submission => {
                self.records.smtp = record_target(&a);
                self.found.merge_from(self.records.clone());
                self.climb(Rung::Mx);
            },
            Rung::Mx => {
                match other_exchanger(self.domain.as_str(), &a) {
                    Some(d) => {
                        self.exchanger = d;
                        self.rung = Rung::MxIspdb;
                    },
                    None => {
                        self.rung = Rung::Done;
                    },
                }
            },
            Rung::MxIspdb => {
                self.found.merge_from(config_found(&a));
                self.rung = Rung::Done;
            },
            Rung::Done => {},
        }
    }
}

// ---------------------------------------------------------------------------
// Laws
// ---------------------------------------------------------------------------

/// The reply of `net` to a question.
pub open spec fn reply(net: Network, action: ActionValue) -> AnswerValue {
    match action {
        ActionValue::Fetch(url) => AnswerValue::Config((net.config)(url)),
        ActionValue::Srv(name) => AnswerValue::Srv((net.srv)(name)),
        ActionValue::Mx(domain) => AnswerValue::Mx((net.mx)(domain)),
        ActionValue::Finished => AnswerValue::Config(None),
    }
}

/// What is found in the end where `net` gives every reply.
pub open spec fn climbed(net: Network, l: LadderValue) -> ServersValue
    decreases l.left(),
{
    if l.rung == Rung::Done {
        l.found
    } else {
        climbed(net, l.answered(reply(net, l.action())))
    }
}

/// A reply brings the derivation nearer to its end, whatever it holds, so it asks nine
/// questions at most.
pub proof fn law_every_answer_climbs(l: LadderValue, a: AnswerValue)
    requires
        l.rung != Rung::Done,
    ensures
        l.answered(a).left() < l.left() <= 9,
{
}

/// Asked one question at a time, whatever the network is, the ladder finds exactly what
/// the sources taken in their order say.
pub proof fn law_climbing_finds_the_targets(
    net: Network,
    domain: Seq<char>,
    email: Option<Seq<char>>,
)
    ensures
        climbed(net, ladder_start(domain, email)) == derived_targets(net, domain, email),
{
    reveal_with_fuel(climbed, 11);
    let l0 = ladder_start(domain, email);
    let l1 = l0.answered(reply(net, l0.action()));
    assert(l1.found == filled(
        autoconfig::no_servers(),
        config_targets((net.config)(hosted_url(domain, email))),
    ));
}

/// What is known once stays: a reply never changes or drops a target that an earlier
/// rung has given.
pub proof fn law_first_source_wins(l: LadderValue, a: AnswerValue)
    ensures
        l.found.imap is Some ==> l.answered(a).found.imap == l.found.imap,
        l.found.smtp is Some ==> l.answered(a).found.smtp == l.found.smtp,
{
}

/// Once both targets are known, nothing more is asked.
pub proof fn law_complete_is_final(l: LadderValue, a: AnswerValue)
    requires
        !l.found.complete(),
        l.answered(a).found.complete(),
    ensures
        l.answered(a).action() == ActionValue::Finished,
{
}

/// The first of these that there is.
pub open spec fn first_there(options: Seq<Option<(Seq<char>, u16)>>) -> Option<(Seq<char>, u16)>
    decreases options.len(),
{
    if options.len() == 0 {
        None
    } else if options[0] is Some {
        options[0]
    } else {
        first_there(options.skip(1))
    }
}

/// Each side is the first that one of the five sources names, in their order: the
/// provider's own configuration, the well-known one, the ISPDB's, the SRV records, and the
/// ISPDB's for the domain of the mail exchanger. No source is left out, and no side goes
/// without a target that one of them names.
pub proof fn law_every_source_counts_in_its_order(
    net: Network,
    domain: Seq<char>,
    email: Option<Seq<char>>,
)
    ensures
        ({
            let hosted = config_targets((net.config)(hosted_url(domain, email)));
            let known = config_targets((net.config)(well_known_url(domain, email)));
            let listed = config_targets((net.config)(ispdb_url(domain)));
            let looked_up = srv_targets(net, domain);
            let exchanger = mx_targets(net, domain);
            let found = climbed(net, ladder_start(domain, email));
            &&& found.imap == first_there(
                seq![hosted.imap, known.imap, listed.imap, looked_up.imap, exchanger.imap],
            )
            &&& found.smtp == first_there(
                seq![hosted.smtp, known.smtp, listed.smtp, looked_up.smtp, exchanger.smtp],
            )
        }),
{
    let hosted = config_targets((net.config)(hosted_url(domain, email)));
    let known = config_targets((net.config)(well_known_url(domain, email)));
    let listed = config_targets((net.config)(ispdb_url(domain)));
    let looked_up = srv_targets(net, domain);
    let exchanger = mx_targets(net, domain);
    law_climbing_finds_the_targets(net, domain, email);
    lemma_first_of_five(
        hosted.imap,
        known.imap,
        listed.imap,
        looked_up.imap,
        exchanger.imap,
    );
    lemma_first_of_five(
        hosted.smtp,
        known.smtp,
        listed.smtp,
        looked_up.smtp,
        exchanger.smtp,
    );
}

proof fn lemma_first_of_five(
    a: Option<(Seq<char>, u16)>,
    b: Option<(Seq<char>, u16)>,
    c: Option<(Seq<char>, u16)>,
    d: Option<(Seq<char>, u16)>,
    e: Option<(Seq<char>, u16)>,
)
    ensures
        first_there(seq![a, b, c, d, e]) == if a is Some {
            a
        } else if b is Some {
            b
        } else if c is Some {
            c
        } else if d is Some {
            d
        } else {
            e
        },
{
    reveal_with_fuel(first_there, 6);
    assert(seq![a, b, c, d, e].skip(1) =~= seq![b, c, d, e]);
    assert(seq![b, c, d, e].skip(1) =~= seq![c, d, e]);
    assert(seq![c, d, e].skip(1) =~= seq![d, e]);
    assert(seq![d, e].skip(1) =~= seq![e]);
    assert(seq![e].skip(1) =~= Seq::empty());
}

/// The provider is asked over HTTPS, at `autoconfig.<domain>` and at the domain itself, and
/// is told the user's address where that is one. The ISPDB is asked for the domain alone:
/// what it is asked does not depend on the user.
pub proof fn law_where_configurations_are_asked_for(domain: Seq<char>, user: Seq<char>)
    requires
        user.contains('@'),
    ensures
        hosted_url(domain, None) == "https://autoconfig."@ + domain + "/mail/config-v1.1.xml"@,
        well_known_url(domain, None) == "https://"@ + domain
            + "/.well-known/autoconfig/mail/config-v1.1.xml"@,
        ispdb_url(domain) == "https://autoconfig.thunderbird.net/v1.1"@ + "/"@ + domain,
        hosted_url(domain, Some(user)) == hosted_url(domain, None) + "?emailaddress="@ + user,
        well_known_url(domain, Some(user)) == well_known_url(domain, None) + "?emailaddress="@
            + user,
{
    assert(hosted_url(domain, None) =~= "https://autoconfig."@ + domain
        + "/mail/config-v1.1.xml"@);
    assert(well_known_url(domain, None) =~= "https://"@ + domain
        + "/.well-known/autoconfig/mail/config-v1.1.xml"@);
    assert(hosted_url(domain, Some(user)) =~= hosted_url(domain, None) + "?emailaddress="@ + user);
    assert(well_known_url(domain, Some(user)) =~= well_known_url(domain, None) + "?emailaddress="@
        + user);
}

/// A login id that is no address is not told to anyone.
pub proof fn law_only_addresses_are_told(domain: Seq<char>, user: Seq<char>)
    requires
        !user.contains('@'),
    ensures
        hosted_url(domain, Some(user)) == hosted_url(domain, None),
        well_known_url(domain, Some(user)) == well_known_url(domain, None),
{
}

/// Of the SRV records, the first under the name for implicit TLS is the target, whatever
/// stands under the other name; only where there is none there does the first under the
/// other name count.
pub proof fn law_srv_records_over_tls_come_first(net: Network, domain: Seq<char>)
    ensures
        ({
            let imaps = (net.srv)("_imaps._tcp."@ + domain);
            let imap = (net.srv)("_imap._tcp."@ + domain);
            let submissions = (net.srv)("_submissions._tcp."@ + domain);
            let submission = (net.srv)("_submission._tcp."@ + domain);
            let found = srv_targets(net, domain);
            &&& imaps.len() > 0 ==> found.imap == Some(imaps[0])
            &&& imaps.len() == 0 && imap.len() > 0 ==> found.imap == Some(imap[0])
            &&& imaps.len() == 0 && imap.len() == 0 ==> found.imap is None
            &&& submissions.len() > 0 ==> found.smtp == Some(submissions[0])
            &&& submissions.len() == 0 && submission.len() > 0 ==> found.smtp == Some(submission[0])
            &&& submissions.len() == 0 && submission.len() == 0 ==> found.smtp is None
        }),
{
}

/// The mail exchanger leads to the ISPDB exactly where its domain is another one and
/// public; it is the most preferred exchanger that counts, and no other.
pub proof fn law_the_best_exchanger_counts(domain: Seq<char>, exchangers: Seq<Seq<char>>)
    ensures
        exchanger_domain(domain, exchangers) matches Some(d) ==> exchangers.len() > 0 && d
            == autoconfig::registrable(exchangers[0]) && d != domain && autoconfig::is_public(d),
        exchangers.len() > 0 && autoconfig::registrable(exchangers[0]) != domain
            && autoconfig::is_public(autoconfig::registrable(exchangers[0])) ==> exchanger_domain(
            domain,
            exchangers,
        ) is Some,
{
}

/// A configuration that cannot be had names no target, and one that can names what it
/// lists.
pub proof fn law_a_missing_configuration_names_nothing(config: ConfigValue)
    ensures
        config_targets(None).imap is None,
        config_targets(None).smtp is None,
        config_targets(Some(config)) == autoconfig::config_servers(config),
{
}

/// What the operator is warned of is what the reply names without implicit TLS: a target
/// from the SRV names that do without it, or the plain ones of a configuration.
pub proof fn law_warnings_are_of_plain_targets(l: LadderValue, a: AnswerValue)
    ensures
        l.rung == Rung::Imap ==> l.plain(a).imap == l.answered(a).records.imap,
        l.rung == Rung::Submission ==> l.plain(a).smtp == l.answered(a).records.smtp,
        l.rung == Rung::Imaps || l.rung == Rung::Submissions || l.rung == Rung::Mx || l.rung
            == Rung::Done ==> l.plain(a).imap is None && l.plain(a).smtp is None,
        l.plain(a).imap matches Some(t) ==> (l.rung == Rung::Imap || (a.config() matches Some(c)
            && autoconfig::config_servers(c).imap == Some(t))),
        l.plain(a).smtp matches Some(t) ==> (l.rung == Rung::Submission || (
        a.config() matches Some(c) && autoconfig::config_servers(c).smtp == Some(t))),
{
    if let Some(c) = a.config() {
        autoconfig::law_plain_targets_are_the_picked_ones(c.incoming, "imap"@);
        autoconfig::law_plain_targets_are_the_picked_ones(c.outgoing, "smtp"@);
    }
}

/// What is said of a value is said of what it holds: every field and every case stands
/// under its own name, and nothing is left out.
pub proof fn law_views_say_what_the_values_hold(
    ladder_action: LadderAction,
    ladder_answer: LadderAnswer,
    ladder: Ladder,
)
    ensures
        match ladder_action {
            LadderAction::Fetch(url) => ladder_action.deep_view() == ActionValue::Fetch(url@),
            LadderAction::Srv(name) => ladder_action.deep_view() == ActionValue::Srv(name@),
            LadderAction::Mx(domain) => ladder_action.deep_view() == ActionValue::Mx(domain@),
            LadderAction::Finished => ladder_action.deep_view() == ActionValue::Finished,
        },
        match ladder_answer {
            LadderAnswer::Config(c) => ladder_answer.deep_view()
                == AnswerValue::Config(c.deep_view()),
            LadderAnswer::Srv(records) => ladder_answer.deep_view()
                == AnswerValue::Srv(records.deep_view()),
            LadderAnswer::Mx(hosts) => ladder_answer.deep_view()
                == AnswerValue::Mx(hosts.deep_view()),
        },
        ladder.deep_view().domain == ladder.domain@,
        ladder.deep_view().email == ladder.email.deep_view(),
        ladder.deep_view().rung == ladder.rung,
        ladder.deep_view().found == ladder.found.deep_view(),
        ladder.deep_view().records == ladder.records.deep_view(),
        ladder.deep_view().exchanger == ladder.exchanger@,
{
}

} // verus!
