//! The address policy on provider targets.
//!
//! On a shared gateway a caller could aim it at anything that the gateway's network
//! reaches. `EndpointGuard`, off unless it is switched on, refuses a target that is, or
//! resolves to, an address that is not public. Every address that a name resolves to is
//! checked, and one that is not public is enough to refuse.
//!
//! The guard itself looks nothing up: `check` says which name it needs looked up and is
//! asked again with the answer.

use vstd::prelude::*;
use vstd::slice::slice_subrange;

use crate::auth::HostPort;
use crate::error::{ErrorKind, GatewayError};
use crate::net;
use crate::net::{IpAddr, IpValue};
use crate::text;

verus! {

// ---------------------------------------------------------------------------
// Addresses
// ---------------------------------------------------------------------------

/// The IPv4 addresses that are not public.
pub open spec fn is_forbidden_v4(o: Seq<u8>) -> bool {
    ||| o[0] == 127  // loopback
    ||| o[0] == 10  // private
    ||| (o[0] == 172 && 16 <= o[1] < 32)  // private
    ||| (o[0] == 192 && o[1] == 168)  // private
    ||| (o[0] == 169 && o[1] == 254)  // link-local
    ||| (o[0] == 255 && o[1] == 255 && o[2] == 255 && o[3] == 255)  // broadcast
    ||| 224 <= o[0] < 240  // multicast
    ||| (o[0] == 192 && o[1] == 0 && o[2] == 2)  // documentation
    ||| (o[0] == 198 && o[1] == 51 && o[2] == 100)  // documentation
    ||| (o[0] == 203 && o[1] == 0 && o[2] == 113)  // documentation
    ||| (o[0] == 100 && 64 <= o[1] < 128)  // carrier-grade NAT
    ||| o[0] == 0  // "this network", the unspecified address among them
}

/// The IPv6 addresses, other than mapped ones, that are not public.
pub open spec fn is_forbidden_v6(g: Seq<u16>) -> bool {
    ||| (g[0] == 0 && g[1] == 0 && g[2] == 0 && g[3] == 0 && g[4] == 0 && g[5] == 0 && g[6] == 0
        && g[7] <= 1)  // unspecified and loopback
    ||| g[0] >= 0xff00  // multicast
    ||| 0xfc00 <= g[0] < 0xfe00  // unique local
    ||| 0xfe80 <= g[0] < 0xfec0  // link-local
}

/// The addresses that the gateway must not be led to.
pub open spec fn is_forbidden(ip: IpValue) -> bool {
    match ip {
        IpValue::V4(o) => is_forbidden_v4(o),
        IpValue::V6(g) => if net::is_mapped(g) {
            is_forbidden_v4(net::mapped_octets(g))
        } else {
            is_forbidden_v6(g)
        },
    }
}

fn forbidden_v4(o: &[u8; 4]) -> (r: bool)
    ensures
        r == is_forbidden_v4(o@),
{
    o[0] == 127 || o[0] == 10 || (o[0] == 172 && 16 <= o[1] && o[1] < 32) || (o[0] == 192 && o[1]
        == 168) || (o[0] == 169 && o[1] == 254) || (o[0] == 255 && o[1] == 255 && o[2] == 255
        && o[3] == 255) || (224 <= o[0] && o[0] < 240) || (o[0] == 192 && o[1] == 0 && o[2] == 2)
        || (o[0] == 198 && o[1] == 51 && o[2] == 100) || (o[0] == 203 && o[1] == 0 && o[2] == 113)
        || (o[0] == 100 && 64 <= o[1] && o[1] < 128) || o[0] == 0
}

/// Whether the gateway must not be led to `ip`.
pub fn is_forbidden_ip(ip: IpAddr) -> (r: bool)
    ensures
        r == is_forbidden(ip@),
{
    match ip {
        IpAddr::V4(o) => forbidden_v4(&o),
        IpAddr::V6(g) => {
            if g[0] == 0 && g[1] == 0 && g[2] == 0 && g[3] == 0 && g[4] == 0 && g[5] == 0xffff {
                return forbidden_v4(&net::mapped(&g));
            }
            (g[0] == 0 && g[1] == 0 && g[2] == 0 && g[3] == 0 && g[4] == 0 && g[5] == 0 && g[6] == 0
                && g[7] <= 1) || g[0] >= 0xff00 || (0xfc00 <= g[0] && g[0] < 0xfe00) || (0xfe80
                <= g[0] && g[0] < 0xfec0)
        },
    }
}

/// Whether an address that is not public is among `ips`.
pub fn any_forbidden(ips: &Vec<IpAddr>) -> (r: bool)
    ensures
        r == exists|i: int| 0 <= i < ips.len() && is_forbidden(#[trigger] ips.deep_view()[i]),
{
    let mut i: usize = 0;
    while i < ips.len()
        invariant
            i <= ips.len(),
            forall|j: int| 0 <= j < i ==> !is_forbidden(#[trigger] ips.deep_view()[j]),
        decreases ips.len() - i,
    {
        assert(ips.deep_view()[i as int] == ips@[i as int]@);
        if is_forbidden_ip(ips[i]) {
            return true;
        }
        i = i + 1;
    }
    false
}

/// Those of `ips` that are public, in their order.
pub open spec fn public_only(ips: Seq<IpValue>) -> Seq<IpValue> {
    ips.filter(|ip: IpValue| !is_forbidden(ip))
}

/// The addresses among `ips` that may be connected to, in their order.
pub fn public_addresses(ips: &Vec<IpAddr>) -> (r: Vec<IpAddr>)
    ensures
        r.deep_view() == public_only(ips.deep_view()),
{
    let mut out: Vec<IpAddr> = Vec::new();
    let mut i: usize = 0;
    let ghost all = ips.deep_view();
    assert(out.deep_view() =~= public_only(all.take(0))) by {
        reveal_with_fuel(Seq::filter, 1);
    }
    while i < ips.len()
        invariant
            i <= ips.len(),
            all == ips.deep_view(),
            out.deep_view() == public_only(all.take(i as int)),
        decreases ips.len() - i,
    {
        let ip = ips[i];
        proof {
            assert(all.take(i + 1).drop_last() =~= all.take(i as int));
            assert(all[i as int] == ip@);
            reveal_with_fuel(Seq::filter, 2);
        }
        let ghost before = out.deep_view();
        if !is_forbidden_ip(ip) {
            out.push(ip);
            assert(out.deep_view() =~= before.push(ip@));
        }
        i = i + 1;
    }
    assert(all.take(i as int) =~= all);
    out
}

// ---------------------------------------------------------------------------
// Names
// ---------------------------------------------------------------------------

/// The host as it is shown: trimmed, without dots at its end.
pub open spec fn shown_host(host: Seq<char>) -> Seq<char> {
    text::stripped_end(text::trimmed(host), '.')
}

/// The host as it is looked at: without the brackets around an address.
pub open spec fn bare_host(host: Seq<char>) -> Seq<char> {
    let h = shown_host(host);
    if h.len() >= 2 && h[0] == '[' && h.last() == ']' {
        h.subrange(1, h.len() - 1)
    } else {
        h
    }
}

/// The names that never denote a public host.
pub open spec fn is_internal_name(name: Seq<char>) -> bool {
    let n = text::lowered(name);
    ||| n == "localhost"@
    ||| text::has_suffix(n, ".localhost"@)
    ||| text::has_suffix(n, ".local"@)
    ||| text::has_suffix(n, ".internal"@)
}

/// Whether `name` never denotes a public host.
pub fn internal_name(name: &[char]) -> (r: bool)
    ensures
        r == is_internal_name(name@),
{
    let n = text::lower_chars(name);
    text::chars_are(n.as_slice(), "localhost") || text::ends_with(n.as_slice(), ".localhost")
        || text::ends_with(n.as_slice(), ".local") || text::ends_with(n.as_slice(), ".internal")
}

// ---------------------------------------------------------------------------
// The guard
// ---------------------------------------------------------------------------

/// What looking a name up came to.
pub enum Lookup {
    /// The addresses of the name.
    Addresses(Vec<IpAddr>),
    /// The lookup failed, with the reason.
    Failed(String),
}

/// What a `Lookup` holds.
#[verifier::ext_equal]
pub enum LookupValue {
    Addresses(Seq<IpValue>),
    Failed(Seq<char>),
}

impl DeepView for Lookup {
    type V = LookupValue;

    open spec fn deep_view(&self) -> LookupValue {
        match *self {
            Lookup::Addresses(ips) => LookupValue::Addresses(ips.deep_view()),
            Lookup::Failed(why) => LookupValue::Failed(why@),
        }
    }
}

/// What the guard says of a target.
pub enum Verdict {
    /// The target may be used.
    Allowed,
    /// The target may not be used.
    Refused(GatewayError),
    /// It depends on the addresses of this name.
    NeedsLookup(String),
}

/// What a `Verdict` holds.
#[verifier::ext_equal]
pub enum VerdictValue {
    Allowed,
    Refused((ErrorKind, Seq<char>)),
    NeedsLookup(Seq<char>),
}

impl DeepView for Verdict {
    type V = VerdictValue;

    open spec fn deep_view(&self) -> VerdictValue {
        match *self {
            Verdict::Allowed => VerdictValue::Allowed,
            Verdict::Refused(e) => VerdictValue::Refused(e@),
            Verdict::NeedsLookup(name) => VerdictValue::NeedsLookup(name@),
        }
    }
}

/// The refusal of a target that is not public.
pub open spec fn blocked_error(source: Seq<char>, host: Seq<char>) -> (ErrorKind, Seq<char>) {
    (
        ErrorKind::BadRequest,
        source + " host '"@ + host
            + "' is not a public address; this gateway refuses loopback, private, link-local, and CGNAT endpoints (OVERFWD_BLOCK_PRIVATE_ENDPOINTS)"@,
    )
}

/// What is said of a target once its name has been looked up.
pub open spec fn judged(source: Seq<char>, host: Seq<char>, answer: LookupValue) -> VerdictValue {
    match answer {
        LookupValue::Failed(why) => VerdictValue::Refused(
            (
                ErrorKind::HostUnreachable,
                "cannot resolve "@ + source + " host '"@ + host + "': "@ + why,
            ),
        ),
        LookupValue::Addresses(ips) => if ips.len() == 0 {
            VerdictValue::Refused(
                (ErrorKind::HostUnreachable, source + " host '"@ + host + "' has no addresses"@),
            )
        } else if exists|i: int| 0 <= i < ips.len() && is_forbidden(#[trigger] ips[i]) {
            VerdictValue::Refused(blocked_error(source, host))
        } else {
            VerdictValue::Allowed
        },
    }
}

/// What is said of the target host `raw`, given what looking its name up came to, if it
/// was looked up.
pub open spec fn verdict(
    enabled: bool,
    source: Seq<char>,
    raw: Seq<char>,
    answer: Option<LookupValue>,
) -> VerdictValue {
    let host = shown_host(raw);
    let bare = bare_host(raw);
    if !enabled {
        VerdictValue::Allowed
    } else if net::ip_literal(bare) is Some {
        if is_forbidden(net::ip_literal(bare)->0) {
            VerdictValue::Refused(blocked_error(source, host))
        } else {
            VerdictValue::Allowed
        }
    } else if is_internal_name(bare) {
        VerdictValue::Refused(blocked_error(source, host))
    } else {
        match answer {
            None => VerdictValue::NeedsLookup(bare),
            Some(a) => judged(source, host, a),
        }
    }
}

/// The refusal: it names where the target came from and the host.
fn blocked(source: &str, host: &str) -> (r: GatewayError)
    ensures
        r@ == blocked_error(source@, host@),
{
    let mut m = text::concat3(source, " host '", host);
    m.append(
        "' is not a public address; this gateway refuses loopback, private, link-local, and CGNAT endpoints (OVERFWD_BLOCK_PRIVATE_ENDPOINTS)",
    );
    GatewayError::BadRequest(m)
}

fn judge(source: &str, host: &str, answer: &Lookup) -> (r: Verdict)
    ensures
        r.deep_view() == judged(source@, host@, answer.deep_view()),
{
    match answer {
        Lookup::Failed(why) => {
            let mut m = text::concat3("cannot resolve ", source, " host '");
            m.append(host);
            m.append("': ");
            m.append(why.as_str());
            Verdict::Refused(GatewayError::HostUnreachable(m))
        },
        Lookup::Addresses(ips) => {
            if ips.len() == 0 {
                let mut m = text::concat3(source, " host '", host);
                m.append("' has no addresses");
                Verdict::Refused(GatewayError::HostUnreachable(m))
            } else if any_forbidden(ips) {
                Verdict::Refused(blocked(source, host))
            } else {
                Verdict::Allowed
            }
        },
    }
}

/// The public-address check on a target; every target passes where it is off.
#[derive(Debug, Clone, Copy)]
pub struct EndpointGuard {
    enabled: bool,
}

impl EndpointGuard {
    /// Whether the guard is on.
    pub closed spec fn is_enabled(self) -> bool {
        self.enabled
    }

    /// A guard that is on or off.
    pub fn new(enabled: bool) -> (r: Self)
        ensures
            r.is_enabled() == enabled,
    {
        EndpointGuard { enabled }
    }

    /// The guard that the configuration asks for.
    pub fn from_config(enabled: bool) -> (r: Self)
        ensures
            r.is_enabled() == enabled,
    {
        EndpointGuard::new(enabled)
    }

    /// A guard that is off.
    pub fn disabled() -> (r: Self)
        ensures
            !r.is_enabled(),
    {
        EndpointGuard::new(false)
    }

    /// Whether the guard is on.
    pub fn enabled(&self) -> (r: bool)
        ensures
            r == self.is_enabled(),
    {
        self.enabled
    }

    /// What is to become of `target`. `source` names where it came from and is in every
    /// refusal. Without `answer` the verdict may be that a name has to be looked up; with
    /// it, the verdict is final.
    pub fn check(&self, source: &str, target: &HostPort, answer: Option<&Lookup>) -> (r: Verdict)
        ensures
            r.deep_view() == verdict(
                self.is_enabled(),
                source@,
                target.host@,
                answer.deep_view(),
            ),
    {
        if !self.enabled {
            return Verdict::Allowed;
        }
        let all = text::to_chars(target.host.as_str());
        let shown = text::strip_end_chars(text::trim_chars(all.as_slice()), '.');
        let host = text::from_chars(shown);
        let bare = if shown.len() >= 2 && shown[0] == '[' && shown[shown.len() - 1] == ']' {
            slice_subrange(shown, 1, shown.len() - 1)
        } else {
            shown
        };
        if let Some(ip) = net::parse_ip(bare) {
            return if is_forbidden_ip(ip) {
                Verdict::Refused(blocked(source, host.as_str()))
            } else {
                Verdict::Allowed
            };
        }
        if internal_name(bare) {
            return Verdict::Refused(blocked(source, host.as_str()));
        }
        match answer {
            None => Verdict::NeedsLookup(text::from_chars(bare)),
            Some(a) => judge(source, host.as_str(), a),
        }
    }
}

/// A guard that is off lets everything pass and has nothing looked up.
pub proof fn law_disabled_allows_everything(
    source: Seq<char>,
    host: Seq<char>,
    answer: Option<LookupValue>,
)
    ensures
        verdict(false, source, host, answer) == VerdictValue::Allowed,
{
}

/// What a guard that is on lets pass is public: an address that is, or a name, not an
/// internal one, all of whose addresses are, one at least.
pub proof fn law_allowed_is_public(
    source: Seq<char>,
    host: Seq<char>,
    answer: Option<LookupValue>,
)
    requires
        verdict(true, source, host, answer) == VerdictValue::Allowed,
    ensures
        match net::ip_literal(bare_host(host)) {
            Some(ip) => !is_forbidden(ip),
            None => {
                &&& !is_internal_name(bare_host(host))
                &&& answer matches Some(LookupValue::Addresses(ips))
                &&& ips.len() > 0
                &&& forall|i: int| 0 <= i < ips.len() ==> !is_forbidden(#[trigger] ips[i])
            },
        },
{
}

/// A refusal by policy is a bad request and a host that cannot be found is not: a
/// caller can tell the two apart.
pub proof fn law_refusals_are_distinct(
    source: Seq<char>,
    host: Seq<char>,
    answer: Option<LookupValue>,
)
    ensures
        verdict(true, source, host, answer) matches VerdictValue::Refused(e) ==> {
            &&& e.0 == ErrorKind::BadRequest || e.0 == ErrorKind::HostUnreachable
            &&& e.0 == ErrorKind::HostUnreachable <==> {
                &&& net::ip_literal(bare_host(host)) is None
                &&& !is_internal_name(bare_host(host))
                &&& answer matches Some(a)
                &&& (a is Failed || a == LookupValue::Addresses(Seq::empty()))
            }
        },
{
    if let Some(LookupValue::Addresses(ips)) = answer {
        assert(ips.len() == 0 ==> ips =~= Seq::empty());
    }
}

/// One address that is not public is enough to refuse, wherever among the answers it is.
pub proof fn law_one_private_answer_refuses(
    source: Seq<char>,
    host: Seq<char>,
    ips: Seq<IpValue>,
    i: int,
)
    requires
        0 <= i < ips.len(),
        is_forbidden(ips[i]),
    ensures
        judged(source, host, LookupValue::Addresses(ips)) == VerdictValue::Refused(
            blocked_error(source, host),
        ),
{
}

/// The IPv4 address `o` as one number.
pub open spec fn v4_number(o: Seq<u8>) -> int {
    o[0] * 0x100_0000 + o[1] * 0x1_0000 + o[2] * 0x100 + o[3]
}

/// Whether the number `n` is of the address block that starts at `a.b.c.d` and has `size`
/// addresses.
pub open spec fn in_block(n: int, a: int, b: int, c: int, d: int, size: int) -> bool {
    let first = a * 0x100_0000 + b * 0x1_0000 + c * 0x100 + d;
    first <= n < first + size
}

/// The IPv4 addresses that are not public are those of the reserved blocks, and no others.
pub proof fn law_the_reserved_blocks(o: Seq<u8>)
    requires
        o.len() == 4,
    ensures
        is_forbidden(IpValue::V4(o)) <==> {
            let n = v4_number(o);
            ||| in_block(n, 0, 0, 0, 0, 0x100_0000)
            ||| in_block(n, 10, 0, 0, 0, 0x100_0000)
            ||| in_block(n, 100, 64, 0, 0, 0x40_0000)
            ||| in_block(n, 127, 0, 0, 0, 0x100_0000)
            ||| in_block(n, 169, 254, 0, 0, 0x1_0000)
            ||| in_block(n, 172, 16, 0, 0, 0x10_0000)
            ||| in_block(n, 192, 0, 2, 0, 0x100)
            ||| in_block(n, 192, 168, 0, 0, 0x1_0000)
            ||| in_block(n, 198, 51, 100, 0, 0x100)
            ||| in_block(n, 203, 0, 113, 0, 0x100)
            ||| in_block(n, 224, 0, 0, 0, 0x1000_0000)
            ||| in_block(n, 255, 255, 255, 255, 1)
        },
{
}

/// Of the IPv6 addresses that map no IPv4 address, the unspecified and the loopback
/// address are not public, nor are those that start with the bits of multicast, of unique
/// local or of link-local addresses; all others are.
pub proof fn law_the_reserved_prefixes(g: Seq<u16>)
    requires
        g.len() == 8,
        exists|i: int| 0 <= i < 5 && #[trigger] g[i] != 0 || g[5] != 0xffff,
    ensures
        is_forbidden(IpValue::V6(g)) <==> {
            ||| g == Seq::new(8, |i: int| 0u16)
            ||| g == Seq::new(7, |i: int| 0u16).push(1)
            ||| g[0] / 0x100 == 0xff
            ||| g[0] / 0x200 == 0xfc00u16 / 0x200
            ||| g[0] / 0x40 == 0xfe80u16 / 0x40
        },
{
    if g[0] == 0 && g[1] == 0 && g[2] == 0 && g[3] == 0 && g[4] == 0 && g[5] == 0 && g[6] == 0 {
        if g[7] == 0 {
            assert(g =~= Seq::new(8, |i: int| 0u16));
        }
        if g[7] == 1 {
            assert(g =~= Seq::new(7, |i: int| 0u16).push(1));
        }
    }
    let one = Seq::new(7, |i: int| 0u16).push(1);
    assert(one[0] == 0 && one[1] == 0 && one[2] == 0 && one[3] == 0 && one[4] == 0 && one[5] == 0
        && one[6] == 0 && one[7] == 1);
}

/// An IPv6 address that maps an IPv4 address is public where that one is.
pub proof fn law_mapped_addresses_are_judged_as_ipv4(o: Seq<u8>, g: Seq<u16>)
    requires
        o.len() == 4,
        g.len() == 8,
        forall|i: int| 0 <= i < 5 ==> #[trigger] g[i] == 0,
        g[5] == 0xffff,
        g[6] == o[0] * 256 + o[1],
        g[7] == o[2] * 256 + o[3],
    ensures
        is_forbidden(IpValue::V6(g)) == is_forbidden(IpValue::V4(o)),
{
    assert(net::mapped_octets(g) =~= o);
}

/// Which of the addresses are kept is said of each of them alone: a public one is, another
/// is not, and those that are kept stay in their order.
pub proof fn law_every_public_address_is_kept(a: Seq<IpValue>, ip: IpValue, b: Seq<IpValue>)
    ensures
        public_only(a + seq![ip] + b) == public_only(a) + (if is_forbidden(ip) {
            Seq::<IpValue>::empty()
        } else {
            seq![ip]
        }) + public_only(b),
        public_only(Seq::<IpValue>::empty()) == Seq::<IpValue>::empty(),
{
    let keep = |ip: IpValue| !is_forbidden(ip);
    Seq::filter_distributes_over_add(a + seq![ip], b, keep);
    Seq::filter_distributes_over_add(a, seq![ip], keep);
    reveal_with_fuel(Seq::filter, 2);
    assert(seq![ip].drop_last() =~= Seq::empty());
}

proof fn lemma_dots_are_stripped(x: Seq<char>, dots: Seq<char>)
    requires
        x.len() > 0,
        x.last() != '.',
        forall|i: int| 0 <= i < dots.len() ==> #[trigger] dots[i] == '.',
    ensures
        text::stripped_end(x + dots, '.') == x,
    decreases dots.len(),
{
    if dots.len() > 0 {
        assert((x + dots).drop_last() =~= x + dots.drop_last());
        assert(dots[dots.len() - 1] == '.');
        lemma_dots_are_stripped(x, dots.drop_last());
    } else {
        assert(x + dots =~= x);
    }
}

/// White space around a host and dots behind it are left away, and so are the brackets
/// around an address where the host is looked at; nothing else is.
pub proof fn law_one_host_under_all_its_spellings(
    before: Seq<char>,
    x: Seq<char>,
    dots: Seq<char>,
    after: Seq<char>,
)
    requires
        x.len() > 0,
        !text::is_space(x[0]),
        !text::is_space(x.last()),
        x.last() != '.',
        forall|i: int| 0 <= i < before.len() ==> text::is_space(#[trigger] before[i]),
        forall|i: int| 0 <= i < dots.len() ==> #[trigger] dots[i] == '.',
        forall|i: int| 0 <= i < after.len() ==> text::is_space(#[trigger] after[i]),
    ensures
        shown_host(before + x + dots + after) == x,
        x[0] != '[' ==> bare_host(before + x + dots + after) == x,
        forall|y: Seq<char>| x == seq!['['] + y + seq![']'] ==> bare_host(before + x + dots + after)
            == y,
{
    let host = before + x + dots + after;
    assert(host =~= before + (x + dots) + after);
    text::law_outer_space_makes_no_difference(before, x + dots, after);
    let s = x + dots;
    assert(s[0] == x[0]);
    if dots.len() > 0 {
        assert(s.last() == dots[dots.len() - 1]);
    } else {
        assert(s =~= x);
    }
    text::law_ascii_white_space('.');
    text::law_trimmed_text_stays(s);
    lemma_dots_are_stripped(x, dots);
    assert forall|y: Seq<char>| x == seq!['['] + y + seq![']'] implies bare_host(host) == y by {
        assert(x[0] == '[');
        assert(x.last() == ']');
        assert(x.subrange(1, x.len() - 1) =~= y);
    }
}

proof fn lemma_last_label(s: Seq<char>, label: Seq<char>)
    requires
        !label.contains('.'),
    ensures
        text::has_suffix(s, seq!['.'] + label) <==> text::split(s, '.').len() > 1 && text::split(
            s,
            '.',
        ).last() == label,
{
    let labels = text::split(s, '.');
    let tail = seq!['.'] + label;
    text::law_cutting_loses_nothing(s, '.');
    if text::has_suffix(s, tail) {
        let head = s.take(s.len() - tail.len());
        assert(s =~= head + s.skip(s.len() - tail.len()));
        assert(s == head + tail);
        assert(head + tail =~= head + seq!['.'] + label);
        text::law_cutting_loses_nothing(head, '.');
        let parts = text::split(head, '.').push(label);
        assert(parts.drop_last() =~= text::split(head, '.'));
        assert(text::join(parts, seq!['.']) == s);
        assert forall|i: int| 0 <= i < parts.len() implies !(#[trigger] parts[i]).contains('.') by {
            if i < parts.len() - 1 {
                assert(parts[i] == text::split(head, '.')[i]);
            }
        }
        text::law_joined_parts_are_cut_out_again(parts, '.');
    }
    if labels.len() > 1 && labels.last() == label {
        let head = text::join(labels.drop_last(), seq!['.']);
        assert(s == head + seq!['.'] + label);
        assert(s.skip(s.len() - tail.len()) =~= tail);
    }
}

/// A name is internal by its last label alone: `localhost`, or behind another label
/// `local` or `internal`, in any case.
pub proof fn law_internal_names(name: Seq<char>)
    ensures
        is_internal_name(name) <==> {
            let labels = text::split(text::lowered(name), '.');
            ||| labels.last() == "localhost"@
            ||| labels.len() > 1 && labels.last() == "local"@
            ||| labels.len() > 1 && labels.last() == "internal"@
        },
        is_internal_name(text::lowered(name)) == is_internal_name(name),
{
    reveal_strlit("localhost");
    reveal_strlit("local");
    reveal_strlit("internal");
    reveal_strlit(".localhost");
    reveal_strlit(".local");
    reveal_strlit(".internal");
    let n = text::lowered(name);
    assert(".localhost"@ =~= seq!['.'] + "localhost"@);
    assert(".local"@ =~= seq!['.'] + "local"@);
    assert(".internal"@ =~= seq!['.'] + "internal"@);
    lemma_last_label(n, "localhost"@);
    lemma_last_label(n, "local"@);
    lemma_last_label(n, "internal"@);
    text::law_cutting_loses_nothing(n, '.');
    let labels = text::split(n, '.');
    if labels.len() == 1 {
        assert(labels =~= seq![labels[0]]);
        assert(text::join(labels, seq!['.']) == labels[0]);
    }
    let one = seq!["localhost"@];
    assert(text::join(one, seq!['.']) == "localhost"@);
    text::law_joined_parts_are_cut_out_again(one, '.');
    assert(text::lowered(n) =~= n) by {
        text::law_lowering_changes_capitals_alone(name);
        text::law_lowering_changes_capitals_alone(n);
    }
}

/// A guard that is on lets a public address pass without a look up, and refuses one that
/// is not public; it has the name itself looked up, and lets it pass where every one of its
/// addresses is public; and every refusal names the source and the host, and why.
pub proof fn law_what_becomes_of_a_target(source: Seq<char>, host: Seq<char>, ips: Seq<IpValue>)
    ensures
        net::ip_literal(bare_host(host)) matches Some(ip) ==> forall|answer: Option<LookupValue>|
            #[trigger] verdict(true, source, host, answer) == if is_forbidden(ip) {
                VerdictValue::Refused(blocked_error(source, shown_host(host)))
            } else {
                VerdictValue::Allowed
            },
        net::ip_literal(bare_host(host)) is None && is_internal_name(bare_host(host)) ==> forall|
            answer: Option<LookupValue>,
        |
            #[trigger] verdict(true, source, host, answer) == VerdictValue::Refused(
                blocked_error(source, shown_host(host)),
            ),
        net::ip_literal(bare_host(host)) is None && !is_internal_name(bare_host(host)) ==> {
            &&& verdict(true, source, host, None) == VerdictValue::NeedsLookup(bare_host(host))
            &&& forall|why: Seq<char>| #[trigger]
                verdict(true, source, host, Some(LookupValue::Failed(why)))
                    == VerdictValue::Refused(
                    (
                        ErrorKind::HostUnreachable,
                        "cannot resolve "@ + source + " host '"@ + shown_host(host) + "': "@ + why,
                    ),
                )
            &&& ips.len() == 0 ==> verdict(
                true,
                source,
                host,
                Some(LookupValue::Addresses(ips)),
            ) == VerdictValue::Refused(
                (
                    ErrorKind::HostUnreachable,
                    source + " host '"@ + shown_host(host) + "' has no addresses"@,
                ),
            )
            &&& ips.len() > 0 && (forall|i: int|
                0 <= i < ips.len() ==> !is_forbidden(#[trigger] ips[i])) ==> verdict(
                true,
                source,
                host,
                Some(LookupValue::Addresses(ips)),
            ) == VerdictValue::Allowed
        },
        blocked_error(source, host).0 == ErrorKind::BadRequest,
        text::has_prefix(blocked_error(source, host).1, source + " host '"@ + host + "'"@),
{
    reveal_strlit("'");
    reveal_strlit(
        "' is not a public address; this gateway refuses loopback, private, link-local, and CGNAT endpoints (OVERFWD_BLOCK_PRIVATE_ENDPOINTS)",
    );
    let start = source + " host '"@ + host + "'"@;
    assert(blocked_error(source, host).1.take(start.len() as int) =~= start);
}

/// What a lookup and a verdict hold is what is said of them: nothing is left out and
/// nothing is mixed up.
pub proof fn law_a_verdict_is_what_it_says(lookup: Lookup, verdict: Verdict)
    ensures
        match lookup {
            Lookup::Addresses(ips) => lookup.deep_view() == LookupValue::Addresses(
                Seq::new(ips@.len(), |i: int| ips@[i]@),
            ),
            Lookup::Failed(why) => lookup.deep_view() == LookupValue::Failed(why@),
        },
        match verdict {
            Verdict::Allowed => verdict.deep_view() is Allowed,
            Verdict::Refused(e) => verdict.deep_view() == VerdictValue::Refused(e@),
            Verdict::NeedsLookup(name) => verdict.deep_view() == VerdictValue::NeedsLookup(name@),
        },
{
    if let Lookup::Addresses(ips) = lookup {
        assert(ips.deep_view() =~= Seq::new(ips@.len(), |i: int| ips@[i]@));
    }
}

} // verus!
