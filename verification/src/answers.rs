//! What the network's raw replies are taken as: a fetched document, SRV records, mail
//! exchangers.

use vstd::prelude::*;

use crate::autoconfig::SrvRecord;
use crate::text;

verus! {

// ---------------------------------------------------------------------------
// Documents
// ---------------------------------------------------------------------------

/// The most bytes that a fetched document may have. The documents that are looked for
/// are a few thousand bytes long.
pub const MAX_BODY: usize = 262_144;

/// A success status.
pub open spec fn is_success(status: u16) -> bool {
    200 <= status < 300
}

/// Whether a body is read at all, by the reply's status and the length it announces.
pub open spec fn is_wanted(status: u16, announced: Option<u64>) -> bool {
    &&& is_success(status)
    &&& announced matches Some(n) ==> n <= MAX_BODY
}

/// The chunks one after the other.
pub open spec fn joined(chunks: Seq<Seq<u8>>) -> Seq<u8>
    decreases chunks.len(),
{
    if chunks.len() == 0 {
        Seq::empty()
    } else {
        joined(chunks.drop_last()) + chunks.last()
    }
}

/// The document in a reply: none where the status is no success, where it is too long,
/// or where it is not UTF-8.
pub open spec fn document(status: u16, announced: Option<u64>, chunks: Seq<Seq<u8>>) -> Option<
    Seq<char>,
> {
    let body = joined(chunks);
    if is_wanted(status, announced) && body.len() <= MAX_BODY && vstd::utf8::valid_utf8(body) {
        Some(vstd::utf8::decode_utf8(body))
    } else {
        None
    }
}

/// A document that is being read, chunk by chunk.
#[derive(Debug)]
pub struct Download {
    body: Vec<u8>,
    refused: bool,
}

impl Download {
    /// What has been read.
    pub closed spec fn body(self) -> Seq<u8> {
        self.body@
    }

    /// Whether the document was given up.
    pub closed spec fn refused(self) -> bool {
        self.refused
    }

    /// Stands at the place in the reply where `chunks` have been read.
    pub open spec fn at(self, status: u16, announced: Option<u64>, chunks: Seq<Seq<u8>>) -> bool {
        &&& self.refused() <==> !is_wanted(status, announced) || joined(chunks).len() > MAX_BODY
        &&& !self.refused() ==> self.body() == joined(chunks)
    }

    /// A reply whose body has not been read yet.
    pub fn new(status: u16, announced: Option<u64>) -> (r: Self)
        ensures
            r.at(status, announced, Seq::empty()),
    {
        let too_long = match announced {
            Some(n) => n > MAX_BODY as u64,
            None => false,
        };
        let ok = 200 <= status && status < 300;
        Download { body: Vec::new(), refused: !ok || too_long }
    }

    /// Whether there is a point in reading on.
    pub fn wants_more(&self) -> (r: bool)
        ensures
            r == !self.refused(),
    {
        !self.refused
    }

    /// Takes the next chunk.
    pub fn chunk(&mut self, bytes: &[u8])
        ensures
            forall|status: u16, announced: Option<u64>, chunks: Seq<Seq<u8>>|
                old(self).at(status, announced, chunks) ==> #[trigger] final(self).at(
                    status,
                    announced,
                    chunks.push(bytes@),
                ),
    {
        let ghost before = *self;
        if !self.refused {
            if bytes.len() > MAX_BODY || self.body.len() > MAX_BODY - bytes.len() {
                self.refused = true;
            } else {
                let mut i: usize = 0;
                while i < bytes.len()
                    invariant
                        i <= bytes.len(),
                        !self.refused,
                        self.body@ =~= before.body@ + bytes@.take(i as int),
                    decreases bytes.len() - i,
                {
                    self.body.push(bytes[i]);
                    i = i + 1;
                }
                assert(bytes@.take(i as int) =~= bytes@);
            }
        }
        proof {
            assert forall|status: u16, announced: Option<u64>, chunks: Seq<Seq<u8>>|
                before.at(status, announced, chunks) implies #[trigger] self.at(
                status,
                announced,
                chunks.push(bytes@),
            ) by {
                assert(chunks.push(bytes@).drop_last() =~= chunks);
            }
        }
    }

    /// The document, once the last chunk has been taken.
    pub fn finish(self) -> (r: Option<String>)
        ensures
            forall|status: u16, announced: Option<u64>, chunks: Seq<Seq<u8>>| #[trigger]
                self.at(status, announced, chunks) ==> r.deep_view() == document(
                    status,
                    announced,
                    chunks,
                ),
    {
        if self.refused {
            None
        } else {
            text::from_utf8(self.body)
        }
    }
}

// ---------------------------------------------------------------------------
// Ranks
// ---------------------------------------------------------------------------

/// Where an item of rank `p` goes among sorted items: behind the last whose rank is no
/// higher.
pub open spec fn place<T>(sorted: Seq<(u16, T)>, p: u16) -> int
    decreases sorted.len(),
{
    if sorted.len() == 0 || sorted.last().0 <= p {
        sorted.len() as int
    } else {
        place(sorted.drop_last(), p)
    }
}

/// Items by rank, the lowest first; those of equal rank keep their order.
pub open spec fn ranked<T>(items: Seq<(u16, T)>) -> Seq<(u16, T)>
    decreases items.len(),
{
    if items.len() == 0 {
        Seq::empty()
    } else {
        let rest = ranked(items.drop_last());
        rest.insert(place(rest, items.last().0), items.last())
    }
}

/// What the items are, without their ranks.
pub open spec fn unranked<T>(items: Seq<(u16, T)>) -> Seq<T> {
    Seq::new(items.len(), |i: int| items[i].1)
}

proof fn lemma_place<T>(sorted: Seq<(u16, T)>, p: u16)
    ensures
        0 <= place(sorted, p) <= sorted.len(),
        place(sorted, p) > 0 ==> sorted[place(sorted, p) - 1].0 <= p,
        forall|i: int| place(sorted, p) <= i < sorted.len() ==> (#[trigger] sorted[i]).0 > p,
    decreases sorted.len(),
{
    if sorted.len() > 0 && sorted.last().0 > p {
        lemma_place(sorted.drop_last(), p);
        assert forall|i: int| place(sorted, p) <= i < sorted.len() implies (
        #[trigger] sorted[i]).0 > p by {
            if i < sorted.len() - 1 {
                assert(sorted.drop_last()[i] == sorted[i]);
            }
        }
    }
}

spec fn paired<T: DeepView>(ranks: Seq<u16>, items: Seq<T>) -> Seq<(u16, T::V)> {
    Seq::new(ranks.len(), |k: int| (ranks[k], items[k].deep_view()))
}

fn insert_ranked<T: DeepView>(ranks: &mut Vec<u16>, items: &mut Vec<T>, rank: u16, item: T)
    requires
        old(ranks).len() == old(items).len(),
    ensures
        final(ranks).len() == final(items).len(),
        paired(final(ranks)@, final(items)@) == paired(old(ranks)@, old(items)@).insert(
            place(paired(old(ranks)@, old(items)@), rank),
            (rank, item.deep_view()),
        ),
{
    let ghost sorted = paired(ranks@, items@);
    let mut at: usize = ranks.len();
    assert(sorted.take(at as int) =~= sorted);
    while at > 0 && ranks[at - 1] > rank
        invariant
            at <= ranks.len(),
            ranks.len() == items.len(),
            sorted == paired(ranks@, items@),
            place(sorted.take(at as int), rank) == place(sorted, rank),
        decreases at,
    {
        assert(sorted.take(at as int).drop_last() =~= sorted.take(at - 1));
        at = at - 1;
    }
    proof {
        if at > 0 {
            assert(sorted.take(at as int).last() == sorted[at - 1]);
        }
    }
    ranks.insert(at, rank);
    items.insert(at, item);
    assert(paired(ranks@, items@) =~= sorted.insert(at as int, (rank, item.deep_view())));
}

/// The lowest ranks come first.
pub proof fn law_preferred_first<T>(items: Seq<(u16, T)>, i: int, j: int)
    requires
        0 <= i <= j < ranked(items).len(),
    ensures
        ranked(items)[i].0 <= ranked(items)[j].0,
    decreases items.len(),
{
    let rest = ranked(items.drop_last());
    let p = items.last().0;
    lemma_place(rest, p);
    let at = place(rest, p);
    let i0 = if i > at { i - 1 } else { i };
    let j0 = if j > at { j - 1 } else { j };
    if i != at && j != at {
        law_preferred_first(items.drop_last(), i0, j0);
    } else if i == at && j != at {
        assert(rest[j0].0 > p);
    } else if i != at && j == at {
        law_preferred_first(items.drop_last(), i0, at - 1);
    }
}

proof fn lemma_filter_none<T>(s: Seq<(u16, T)>, p: u16)
    requires
        forall|i: int| 0 <= i < s.len() ==> (#[trigger] s[i]).0 != p,
    ensures
        s.filter(|r: (u16, T)| r.0 == p) == Seq::<(u16, T)>::empty(),
    decreases s.len(),
{
    reveal(Seq::filter);
    if s.len() > 0 {
        assert(s.last().0 != p);
        assert forall|i: int| 0 <= i < s.drop_last().len() implies (
        #[trigger] s.drop_last()[i]).0 != p by {
            assert(s.drop_last()[i] == s[i]);
        }
        lemma_filter_none(s.drop_last(), p);
    }
}

/// Of every rank, the same items come out, once each, in the order in which they went in.
pub proof fn law_equal_preference_keeps_order<T>(items: Seq<(u16, T)>, p: u16)
    ensures
        ranked(items).filter(|r: (u16, T)| r.0 == p) == items.filter(|r: (u16, T)| r.0 == p),
    decreases items.len(),
{
    reveal(Seq::filter);
    let keep = |r: (u16, T)| r.0 == p;
    if items.len() > 0 {
        law_equal_preference_keeps_order(items.drop_last(), p);
        let rest = ranked(items.drop_last());
        let q = items.last().0;
        lemma_place(rest, q);
        let at = place(rest, q);
        let front = rest.take(at);
        let back = rest.skip(at);
        let one = seq![items.last()];
        assert(rest =~= front + back);
        assert(ranked(items) =~= front + one + back);
        assert(items =~= items.drop_last() + one);
        Seq::filter_distributes_over_add(front, back, keep);
        Seq::filter_distributes_over_add(front + one, back, keep);
        Seq::filter_distributes_over_add(front, one, keep);
        Seq::filter_distributes_over_add(items.drop_last(), one, keep);
        if q == p {
            assert forall|i: int| 0 <= i < back.len() implies (#[trigger] back[i]).0 != p by {
                assert(back[i] == rest[at + i]);
            }
            lemma_filter_none(back, p);
            assert(ranked(items).filter(keep) =~= items.filter(keep));
        } else {
            lemma_filter_none(one, p);
            assert(ranked(items).filter(keep) =~= items.filter(keep));
        }
    }
}

// ---------------------------------------------------------------------------
// SRV records
// ---------------------------------------------------------------------------

/// The records in a reply that name a host, each of priority, target and port; targets
/// without dots at their end. A record whose target is `.` says that there is no such
/// service.
pub open spec fn usable_records(raw: Seq<(u16, Seq<char>, u16)>) -> Seq<(u16, (Seq<char>, u16))>
    decreases raw.len(),
{
    if raw.len() == 0 {
        Seq::empty()
    } else {
        let rest = usable_records(raw.drop_last());
        let host = text::stripped_end(raw.last().1, '.');
        if host.len() == 0 {
            rest
        } else {
            rest.push((raw.last().0, (host, raw.last().2)))
        }
    }
}

/// The SRV records in a reply, given as priority, target and port, by priority; those of
/// equal priority in the order of the reply.
pub fn srv_records(raw: &Vec<(u16, String, u16)>) -> (r: Vec<SrvRecord>)
    ensures
        r.deep_view() == unranked(ranked(usable_records(raw.deep_view()))),
{
    let ghost all = raw.deep_view();
    let mut ranks: Vec<u16> = Vec::new();
    let mut records: Vec<SrvRecord> = Vec::new();
    let mut i: usize = 0;
    assert(paired(ranks@, records@) =~= ranked(usable_records(all.take(0))));
    while i < raw.len()
        invariant
            i <= raw.len(),
            all == raw.deep_view(),
            ranks.len() == records.len(),
            paired(ranks@, records@) == ranked(usable_records(all.take(i as int))),
        decreases raw.len() - i,
    {
        let ghost before = usable_records(all.take(i as int));
        proof {
            assert(all.take(i + 1).drop_last() =~= all.take(i as int));
            assert(all[i as int] == raw@[i as int].deep_view());
        }
        let chars = text::to_chars(raw[i].1.as_str());
        let host = text::strip_end_chars(chars.as_slice(), '.');
        if host.len() > 0 {
            let record = SrvRecord { host: text::from_chars(host), port: raw[i].2 };
            assert(before.push((raw@[i as int].0, record.deep_view())).drop_last() =~= before);
            insert_ranked(&mut ranks, &mut records, raw[i].0, record);
        }
        i = i + 1;
    }
    assert(all.take(i as int) =~= all);
    assert(records.deep_view() =~= unranked(paired(ranks@, records@)));
    records
}

// ---------------------------------------------------------------------------
// Mail exchangers
// ---------------------------------------------------------------------------

/// The records in a reply that name a host, each of preference and host; hosts without
/// dots at their end.
pub open spec fn usable_exchangers(raw: Seq<(u16, Seq<char>)>) -> Seq<(u16, Seq<char>)>
    decreases raw.len(),
{
    if raw.len() == 0 {
        Seq::empty()
    } else {
        let rest = usable_exchangers(raw.drop_last());
        let host = text::stripped_end(raw.last().1, '.');
        if host.len() == 0 {
            rest
        } else {
            rest.push((raw.last().0, host))
        }
    }
}

/// The mail exchangers in a reply, the most preferred first; those of equal preference
/// in the order of the reply.
pub fn mx_hosts(raw: &Vec<(u16, String)>) -> (r: Vec<String>)
    ensures
        r.deep_view() == unranked(ranked(usable_exchangers(raw.deep_view()))),
{
    let ghost all = raw.deep_view();
    let mut ranks: Vec<u16> = Vec::new();
    let mut hosts: Vec<String> = Vec::new();
    let mut i: usize = 0;
    assert(paired(ranks@, hosts@) =~= ranked(usable_exchangers(all.take(0))));
    while i < raw.len()
        invariant
            i <= raw.len(),
            all == raw.deep_view(),
            ranks.len() == hosts.len(),
            paired(ranks@, hosts@) == ranked(usable_exchangers(all.take(i as int))),
        decreases raw.len() - i,
    {
        let ghost before = usable_exchangers(all.take(i as int));
        proof {
            assert(all.take(i + 1).drop_last() =~= all.take(i as int));
            assert(all[i as int] == raw@[i as int].deep_view());
        }
        let chars = text::to_chars(raw[i].1.as_str());
        let bare = text::strip_end_chars(chars.as_slice(), '.');
        if bare.len() > 0 {
            let host = text::from_chars(bare);
            assert(before.push((raw@[i as int].0, host@)).drop_last() =~= before);
            insert_ranked(&mut ranks, &mut hosts, raw[i].0, host);
        }
        i = i + 1;
    }
    assert(all.take(i as int) =~= all);
    assert(hosts.deep_view() =~= unranked(paired(ranks@, hosts@)));
    hosts
}

// ---------------------------------------------------------------------------
// Laws
// ---------------------------------------------------------------------------

/// A document is taken exactly where the reply's status is from 200 to 299, neither the
/// length that it announces nor its own is above 262144 bytes, and it is UTF-8; it is then
/// taken whole.
pub proof fn law_which_documents_are_taken(
    status: u16,
    announced: Option<u64>,
    chunks: Seq<Seq<u8>>,
)
    ensures
        document(status, announced, chunks) is Some <==> status / 100 == 2 && (
        announced matches Some(n) ==> n <= 262144) && joined(chunks).len() <= 262144
            && vstd::utf8::valid_utf8(joined(chunks)),
        document(status, announced, chunks) matches Some(t) ==> vstd::utf8::encode_utf8(t)
            == joined(chunks),
{
    if vstd::utf8::valid_utf8(joined(chunks)) {
        vstd::utf8::decode_utf8_encode_utf8(joined(chunks));
    }
}

/// How a document is cut into chunks makes no difference.
pub proof fn law_chunks_make_no_difference(
    status: u16,
    announced: Option<u64>,
    a: Seq<Seq<u8>>,
    b: Seq<Seq<u8>>,
    one: Seq<u8>,
)
    ensures
        joined(a + b) == joined(a) + joined(b),
        joined(seq![one]) == one,
        document(status, announced, a) == document(status, announced, seq![joined(a)]),
    decreases b.len(),
{
    lemma_joined_one(one);
    lemma_joined_one(joined(a));
    if b.len() == 0 {
        assert(a + b =~= a);
        assert(joined(a) + joined(b) =~= joined(a));
    } else {
        law_chunks_make_no_difference(status, announced, a, b.drop_last(), one);
        assert((a + b).drop_last() =~= a + b.drop_last());
        assert(joined(a + b) =~= joined(a) + joined(b));
    }
}

proof fn lemma_joined_one(one: Seq<u8>)
    ensures
        joined(seq![one]) == one,
{
    assert(seq![one].drop_last() =~= Seq::<Seq<u8>>::empty());
    assert(joined(seq![one].drop_last()) =~= Seq::<u8>::empty());
    assert(joined(seq![one]) =~= one);
}

/// Every SRV record that names a host is used, with its own priority and port, and its host
/// without the dots at its end; one that names none is not.
pub proof fn law_every_named_record_is_used(
    a: Seq<(u16, Seq<char>, u16)>,
    b: Seq<(u16, Seq<char>, u16)>,
    priority: u16,
    host: Seq<char>,
    port: u16,
)
    ensures
        usable_records(a + b) == usable_records(a) + usable_records(b),
        usable_records(seq![(priority, host, port)]) == if text::stripped_end(host, '.').len()
            == 0 {
            Seq::<(u16, (Seq<char>, u16))>::empty()
        } else {
            seq![(priority, (text::stripped_end(host, '.'), port))]
        },
    decreases b.len(),
{
    let one = seq![(priority, host, port)];
    assert(one.drop_last() =~= Seq::<(u16, Seq<char>, u16)>::empty());
    assert(usable_records(one.drop_last()) =~= Seq::<(u16, (Seq<char>, u16))>::empty());
    assert(usable_records(one) =~= if text::stripped_end(host, '.').len() == 0 {
        Seq::<(u16, (Seq<char>, u16))>::empty()
    } else {
        seq![(priority, (text::stripped_end(host, '.'), port))]
    });
    if b.len() == 0 {
        assert(a + b =~= a);
        assert(usable_records(a) + usable_records(b) =~= usable_records(a));
    } else {
        law_every_named_record_is_used(a, b.drop_last(), priority, host, port);
        assert((a + b).drop_last() =~= a + b.drop_last());
        assert(usable_records(a + b) =~= usable_records(a) + usable_records(b));
    }
}

/// Every mail exchanger that names a host is used, with its own preference, and its host
/// without the dots at its end; one that names none is not.
pub proof fn law_every_named_exchanger_is_used(
    a: Seq<(u16, Seq<char>)>,
    b: Seq<(u16, Seq<char>)>,
    preference: u16,
    host: Seq<char>,
)
    ensures
        usable_exchangers(a + b) == usable_exchangers(a) + usable_exchangers(b),
        usable_exchangers(seq![(preference, host)]) == if text::stripped_end(host, '.').len()
            == 0 {
            Seq::<(u16, Seq<char>)>::empty()
        } else {
            seq![(preference, text::stripped_end(host, '.'))]
        },
    decreases b.len(),
{
    let one = seq![(preference, host)];
    assert(one.drop_last() =~= Seq::<(u16, Seq<char>)>::empty());
    assert(usable_exchangers(one.drop_last()) =~= Seq::<(u16, Seq<char>)>::empty());
    assert(usable_exchangers(one) =~= if text::stripped_end(host, '.').len() == 0 {
        Seq::<(u16, Seq<char>)>::empty()
    } else {
        seq![(preference, text::stripped_end(host, '.'))]
    });
    if b.len() == 0 {
        assert(a + b =~= a);
        assert(usable_exchangers(a) + usable_exchangers(b) =~= usable_exchangers(a));
    } else {
        law_every_named_exchanger_is_used(a, b.drop_last(), preference, host);
        assert((a + b).drop_last() =~= a + b.drop_last());
        assert(usable_exchangers(a + b) =~= usable_exchangers(a) + usable_exchangers(b));
    }
}

/// Leaving the ranks away leaves everything else where it is.
pub proof fn law_only_the_ranks_are_left_away<T>(items: Seq<(u16, T)>)
    ensures
        unranked(items).len() == items.len(),
        forall|i: int| 0 <= i < items.len() ==> #[trigger] unranked(items)[i] == items[i].1,
{
}

} // verus!
