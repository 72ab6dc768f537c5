//! Internet addresses as plain values, and their text forms.

use vstd::prelude::*;
use vstd::slice::slice_subrange;

use crate::text;

verus! {

/// An IP address: four octets, or eight 16-bit groups.
#[derive(Clone, Copy, Debug, PartialEq, Eq)]
pub enum IpAddr {
    V4([u8; 4]),
    V6([u16; 8]),
}

/// What an `IpAddr` holds.
#[verifier::ext_equal]
pub enum IpValue {
    V4(Seq<u8>),
    V6(Seq<u16>),
}

impl View for IpAddr {
    type V = IpValue;

    open spec fn view(&self) -> IpValue {
        match *self {
            IpAddr::V4(o) => IpValue::V4(o@),
            IpAddr::V6(g) => IpValue::V6(g@),
        }
    }
}

impl DeepView for IpAddr {
    type V = IpValue;

    open spec fn deep_view(&self) -> IpValue {
        self@
    }
}

// ---------------------------------------------------------------------------
// Dotted text
// ---------------------------------------------------------------------------

/// One to three decimal digits, at most 255, with no needless zero in front.
pub open spec fn is_octet(s: Seq<char>) -> bool {
    &&& text::is_decimal(s)
    &&& s.len() <= 3
    &&& s.len() > 1 ==> s[0] != '0'
    &&& text::decimal_value(s) <= 255
}

/// The four octets that the dotted text `s` stands for.
pub open spec fn v4_octets(s: Seq<char>) -> Option<Seq<u8>> {
    let p = text::split(s, '.');
    if p.len() == 4 && (forall|i: int| 0 <= i < 4 ==> is_octet(#[trigger] p[i])) {
        Some(Seq::new(4, |i: int| text::decimal_value(p[i]) as u8))
    } else {
        None
    }
}

fn parse_octet(s: &[char]) -> (r: Option<u8>)
    ensures
        match r {
            Some(v) => is_octet(s@) && v == text::decimal_value(s@),
            None => !is_octet(s@),
        },
{
    if s.len() > 3 || (s.len() > 1 && s[0] == '0') {
        return None;
    }
    match text::parse_decimal(s, 255) {
        Some(v) => Some(v as u8),
        None => None,
    }
}

/// Reads dotted text as four octets.
pub fn parse_v4(s: &[char]) -> (r: Option<[u8; 4]>)
    ensures
        match r {
            Some(o) => v4_octets(s@) == Some(o@),
            None => v4_octets(s@) is None,
        },
{
    let p = text::split_chars(s, '.');
    let ghost want = text::split(s@, '.');
    if p.len() != 4 {
        return None;
    }
    assert(forall|i: int| 0 <= i < 4 ==> p@[i]@ == #[trigger] want[i]);
    match (parse_octet(p[0]), parse_octet(p[1]), parse_octet(p[2]), parse_octet(p[3])) {
        (Some(a), Some(b), Some(c), Some(d)) => {
            let o: [u8; 4] = [a, b, c, d];
            assert(o@ =~= v4_octets(s@)->0);
            Some(o)
        },
        _ => {
            assert(!is_octet(want[0]) || !is_octet(want[1]) || !is_octet(want[2]) || !is_octet(
                want[3],
            ));
            None
        },
    }
}

// ---------------------------------------------------------------------------
// Colon-separated text
// ---------------------------------------------------------------------------

/// One to four hexadecimal digits.
pub open spec fn is_group(s: Seq<char>) -> bool {
    1 <= s.len() <= 4 && forall|i: int| 0 <= i < s.len() ==> text::is_hex_digit(#[trigger] s[i])
}

/// What a row of hexadecimal digits counts.
pub open spec fn hex_value(s: Seq<char>) -> nat
    decreases s.len(),
{
    if s.len() == 0 {
        0
    } else {
        hex_value(s.drop_last()) * 16 + text::hex_digit(s.last())
    }
}

/// The two groups that four octets fill.
pub open spec fn octet_groups(o: Seq<u8>) -> Seq<u16> {
    seq![(o[0] * 256 + o[1]) as u16, (o[2] * 256 + o[3]) as u16]
}

/// The groups that a row of pieces stands for; with `dotted`, the last piece may be
/// a dotted address.
pub open spec fn group_run(p: Seq<Seq<char>>, dotted: bool) -> Option<Seq<u16>>
    decreases p.len(),
{
    if p.len() == 0 {
        Some(Seq::empty())
    } else if is_group(p[0]) {
        match group_run(p.skip(1), dotted) {
            Some(rest) => Some(seq![hex_value(p[0]) as u16] + rest),
            None => None,
        }
    } else if dotted && p.len() == 1 {
        match v4_octets(p[0]) {
            Some(o) => Some(octet_groups(o)),
            None => None,
        }
    } else {
        None
    }
}

/// The groups of the colon-separated text `s`; the empty text has none.
pub open spec fn groups(s: Seq<char>, dotted: bool) -> Option<Seq<u16>> {
    if s.len() == 0 {
        Some(Seq::empty())
    } else {
        group_run(text::split(s, ':'), dotted)
    }
}

/// Where the first `::` in `s` stands; the length of `s` where there is none.
pub open spec fn gap(s: Seq<char>) -> int
    decreases s.len(),
{
    if s.len() == 0 || (s.len() >= 2 && s[0] == ':' && s[1] == ':') {
        0
    } else {
        1 + gap(s.skip(1))
    }
}

/// The eight groups that the text `s` stands for: eight written out, or at most seven
/// around one `::`, which stands for the zeros between.
pub open spec fn v6_groups(s: Seq<char>) -> Option<Seq<u16>> {
    if gap(s) < s.len() {
        match (groups(s.take(gap(s)), false), groups(s.skip(gap(s) + 2), true)) {
            (Some(head), Some(tail)) => if head.len() + tail.len() <= 7 {
                Some(head + Seq::new((8 - head.len() - tail.len()) as nat, |i: int| 0u16) + tail)
            } else {
                None
            },
            _ => None,
        }
    } else {
        match groups(s, true) {
            Some(all) => if all.len() == 8 {
                Some(all)
            } else {
                None
            },
            None => None,
        }
    }
}

/// The address that the text `s` stands for.
pub open spec fn ip_literal(s: Seq<char>) -> Option<IpValue> {
    match v4_octets(s) {
        Some(o) => Some(IpValue::V4(o)),
        None => match v6_groups(s) {
            Some(g) => Some(IpValue::V6(g)),
            None => None,
        },
    }
}

proof fn lemma_hex_bound(s: Seq<char>)
    requires
        forall|i: int| 0 <= i < s.len() ==> text::is_hex_digit(#[trigger] s[i]),
    ensures
        s.len() == 0 ==> hex_value(s) == 0,
        s.len() == 1 ==> hex_value(s) < 16,
        s.len() == 2 ==> hex_value(s) < 256,
        s.len() == 3 ==> hex_value(s) < 4096,
        s.len() == 4 ==> hex_value(s) < 65536,
    decreases s.len(),
{
    if 0 < s.len() <= 4 {
        assert(text::is_hex_digit(s[s.len() - 1]));
        assert(forall|i: int| 0 <= i < s.len() - 1 ==> s.drop_last()[i] == s[i]);
        lemma_hex_bound(s.drop_last());
    }
}

fn parse_group(s: &[char]) -> (r: Option<u16>)
    ensures
        match r {
            Some(v) => is_group(s@) && v == hex_value(s@),
            None => !is_group(s@),
        },
{
    if s.len() == 0 || s.len() > 4 {
        return None;
    }
    let mut value: u32 = 0;
    let mut i: usize = 0;
    while i < s.len()
        invariant
            i <= s.len() <= 4,
            value == hex_value(s@.take(i as int)),
            forall|j: int| 0 <= j < i ==> text::is_hex_digit(#[trigger] s@[j]),
        decreases s.len() - i,
    {
        let c = s[i];
        let d: u32 = if '0' <= c && c <= '9' {
            c as u32 - '0' as u32
        } else if 'a' <= c && c <= 'f' {
            c as u32 - 'a' as u32 + 10
        } else if 'A' <= c && c <= 'F' {
            c as u32 - 'A' as u32 + 10
        } else {
            return None;
        };
        proof {
            assert(s@.take(i + 1).drop_last() =~= s@.take(i as int));
            lemma_hex_bound(s@.take(i as int));
        }
        value = value * 16 + d;
        i = i + 1;
    }
    proof {
        assert(s@.take(i as int) =~= s@);
        lemma_hex_bound(s@);
    }
    Some(value as u16)
}

fn parse_groups(s: &[char], dotted: bool) -> (r: Option<Vec<u16>>)
    ensures
        match r {
            Some(v) => groups(s@, dotted) == Some(v@),
            None => groups(s@, dotted) is None,
        },
{
    let mut out: Vec<u16> = Vec::new();
    if s.len() == 0 {
        assert(out@ =~= Seq::<u16>::empty());
        return Some(out);
    }
    let p = text::split_chars(s, ':');
    let ghost want = text::split(s@, ':');
    let mut i: usize = 0;
    assert(want.skip(0) =~= want);
    while i < p.len()
        invariant
            i <= p.len(),
            want == text::split(s@, ':'),
            text::pieces(p@) == want,
            groups(s@, dotted) == group_run(want, dotted),
            match group_run(want.skip(i as int), dotted) {
                Some(rest) => group_run(want, dotted) == Some(out@ + rest),
                None => group_run(want, dotted) is None,
            },
        decreases p.len() - i,
    {
        let ghost before = want.skip(i as int);
        proof {
            assert(before.skip(1) =~= want.skip(i + 1));
            assert(want[i as int] == p@[i as int]@);
        }
        match parse_group(p[i]) {
            Some(v) => {
                proof {
                    if let Some(rest) = group_run(want.skip(i + 1), dotted) {
                        assert(out@ + (seq![v] + rest) =~= out@.push(v) + rest);
                    }
                }
                out.push(v);
            },
            None => {
                if !dotted || i + 1 != p.len() {
                    return None;
                }
                match parse_v4(p[i]) {
                    Some(o) => {
                        proof {
                            assert(seq![
                                (o@[0] * 256 + o@[1]) as u16,
                                (o@[2] * 256 + o@[3]) as u16,
                            ] =~= octet_groups(o@));
                            assert(out@ + octet_groups(o@) =~= out@.push(
                                (o@[0] * 256 + o@[1]) as u16,
                            ).push((o@[2] * 256 + o@[3]) as u16));
                        }
                        out.push(o[0] as u16 * 256 + o[1] as u16);
                        out.push(o[2] as u16 * 256 + o[3] as u16);
                        return Some(out);
                    },
                    None => {
                        return None;
                    },
                }
            },
        }
        i = i + 1;
    }
    proof {
        assert(want.skip(i as int) =~= Seq::<Seq<char>>::empty());
        assert(out@ + Seq::<u16>::empty() =~= out@);
    }
    Some(out)
}

fn find_gap(s: &[char]) -> (r: usize)
    ensures
        r == gap(s@),
        r <= s.len(),
        r < s.len() ==> r + 2 <= s.len(),
{
    let mut i: usize = 0;
    assert(s@.skip(0) =~= s@);
    while i < s.len()
        invariant
            i <= s.len(),
            i + gap(s@.skip(i as int)) == gap(s@),
        decreases s.len() - i,
    {
        if i + 1 < s.len() && s[i] == ':' && s[i + 1] == ':' {
            return i;
        }
        assert(s@.skip(i as int).skip(1) =~= s@.skip(i + 1));
        i = i + 1;
    }
    i
}

fn eight(v: &Vec<u16>) -> (r: [u16; 8])
    requires
        v.len() == 8,
    ensures
        r@ == v@,
{
    let g: [u16; 8] = [v[0], v[1], v[2], v[3], v[4], v[5], v[6], v[7]];
    assert(g@ =~= v@);
    g
}

/// Reads colon-separated text as eight groups.
pub fn parse_v6(s: &[char]) -> (r: Option<[u16; 8]>)
    ensures
        match r {
            Some(g) => v6_groups(s@) == Some(g@),
            None => v6_groups(s@) is None,
        },
{
    let at: usize = find_gap(s);
    if at == s.len() {
        return match parse_groups(s, true) {
            Some(all) => if all.len() == 8 {
                Some(eight(&all))
            } else {
                None
            },
            None => None,
        };
    }
    let head = match parse_groups(slice_subrange(s, 0, at), false) {
        Some(v) => v,
        None => {
            return None;
        },
    };
    let tail = match parse_groups(slice_subrange(s, at + 2, s.len()), true) {
        Some(v) => v,
        None => {
            return None;
        },
    };
    if head.len() > 7 || tail.len() > 7 || head.len() + tail.len() > 7 {
        return None;
    }
    let ghost zeros = (8 - head.len() - tail.len()) as nat;
    let mut out: Vec<u16> = head;
    let ghost front = head@;
    while out.len() < 8 - tail.len()
        invariant
            front.len() + tail.len() <= 7,
            tail.len() <= 7,
            front.len() <= out.len() <= 8 - tail.len(),
            zeros == 8 - front.len() - tail.len(),
            out@ =~= front + Seq::new((out.len() - front.len()) as nat, |i: int| 0u16),
        decreases 8 - out.len(),
    {
        out.push(0);
    }
    let mut j: usize = 0;
    let ghost middle = out@;
    while j < tail.len()
        invariant
            j <= tail.len(),
            middle.len() + tail.len() == 8,
            out@ =~= middle + tail@.take(j as int),
        decreases tail.len() - j,
    {
        out.push(tail[j]);
        j = j + 1;
    }
    proof {
        assert(tail@.take(j as int) =~= tail@);
        assert(out@ =~= front + Seq::new(zeros, |i: int| 0u16) + tail@);
    }
    Some(eight(&out))
}

/// Reads text as an IP address.
pub fn parse_ip(s: &[char]) -> (r: Option<IpAddr>)
    ensures
        r.deep_view() == ip_literal(s@),
{
    match parse_v4(s) {
        Some(o) => Some(IpAddr::V4(o)),
        None => match parse_v6(s) {
            Some(g) => Some(IpAddr::V6(g)),
            None => None,
        },
    }
}

// ---------------------------------------------------------------------------
// Socket addresses
// ---------------------------------------------------------------------------

/// An address with a port; `scope_id` is 0 but for an address whose text names one.
#[derive(Clone, Copy, Debug, PartialEq, Eq)]
pub struct SocketAddr {
    pub ip: IpAddr,
    pub port: u16,
    pub scope_id: u32,
}

impl View for SocketAddr {
    type V = (IpValue, u16, u32);

    open spec fn view(&self) -> (IpValue, u16, u32) {
        (self.ip@, self.port, self.scope_id)
    }
}

impl DeepView for SocketAddr {
    type V = (IpValue, u16, u32);

    open spec fn deep_view(&self) -> (IpValue, u16, u32) {
        self@
    }
}

/// What `v4:port` stands for.
pub open spec fn v4_socket(s: Seq<char>) -> Option<(IpValue, u16, u32)> {
    let at = text::find(s, ':');
    if at == s.len() {
        None
    } else {
        match (v4_octets(s.take(at)), text::decimal_in(s.skip(at + 1), 65535)) {
            (Some(o), Some(port)) => Some((IpValue::V4(o), port as u16, 0u32)),
            _ => None,
        }
    }
}

/// What the text between the brackets stands for: an address, and after a `%` a scope.
pub open spec fn scoped(s: Seq<char>) -> Option<(Seq<u16>, u32)> {
    let at = text::find(s, '%');
    if at == s.len() {
        match v6_groups(s) {
            Some(g) => Some((g, 0u32)),
            None => None,
        }
    } else {
        match (v6_groups(s.take(at)), text::decimal_in(s.skip(at + 1), 0xffff_ffff)) {
            (Some(g), Some(scope)) => Some((g, scope as u32)),
            _ => None,
        }
    }
}

/// What `[v6]:port` and `[v6%scope]:port` stand for.
pub open spec fn v6_socket(s: Seq<char>) -> Option<(IpValue, u16, u32)> {
    let at = text::find(s, ']');
    if s.len() == 0 || s[0] != '[' || at + 1 >= s.len() || s[at + 1] != ':' {
        None
    } else {
        match (scoped(s.subrange(1, at)), text::decimal_in(s.skip(at + 2), 65535)) {
            (Some(a), Some(port)) => Some((IpValue::V6(a.0), port as u16, a.1)),
            _ => None,
        }
    }
}

/// What the text `s` stands for as an address with a port.
pub open spec fn socket_literal(s: Seq<char>) -> Option<(IpValue, u16, u32)> {
    match v4_socket(s) {
        Some(a) => Some(a),
        None => v6_socket(s),
    }
}

fn parse_v4_socket(s: &[char]) -> (r: Option<SocketAddr>)
    ensures
        r.deep_view() == v4_socket(s@),
{
    let at: usize = text::find_char(s, ':');
    if at == s.len() {
        return None;
    }
    let ip = parse_v4(slice_subrange(s, 0, at));
    let port = text::parse_decimal(slice_subrange(s, at + 1, s.len()), 65535);
    match (ip, port) {
        (Some(o), Some(n)) => Some(SocketAddr { ip: IpAddr::V4(o), port: n as u16, scope_id: 0 }),
        _ => None,
    }
}

fn parse_scoped(s: &[char]) -> (r: Option<([u16; 8], u32)>)
    ensures
        match r {
            Some(a) => scoped(s@) == Some((a.0@, a.1)),
            None => scoped(s@) is None,
        },
{
    let at: usize = text::find_char(s, '%');
    if at == s.len() {
        return match parse_v6(s) {
            Some(g) => Some((g, 0)),
            None => None,
        };
    }
    let ip = parse_v6(slice_subrange(s, 0, at));
    let scope = text::parse_decimal(slice_subrange(s, at + 1, s.len()), 0xffff_ffff);
    match (ip, scope) {
        (Some(g), Some(n)) => Some((g, n as u32)),
        _ => None,
    }
}

fn parse_v6_socket(s: &[char]) -> (r: Option<SocketAddr>)
    ensures
        r.deep_view() == v6_socket(s@),
{
    let at: usize = text::find_char(s, ']');
    proof {
        text::lemma_find(s@, ']');
    }
    if s.len() == 0 || s[0] != '[' || at >= s.len() - 1 || s[at + 1] != ':' {
        return None;
    }
    let ip = parse_scoped(slice_subrange(s, 1, at));
    let port = text::parse_decimal(slice_subrange(s, at + 2, s.len()), 65535);
    match (ip, port) {
        (Some(a), Some(n)) => Some(
            SocketAddr { ip: IpAddr::V6(a.0), port: n as u16, scope_id: a.1 },
        ),
        _ => None,
    }
}

/// Reads text as an address with a port.
pub fn parse_socket(s: &[char]) -> (r: Option<SocketAddr>)
    ensures
        r.deep_view() == socket_literal(s@),
{
    match parse_v4_socket(s) {
        Some(a) => Some(a),
        None => parse_v6_socket(s),
    }
}

// ---------------------------------------------------------------------------
// Writing addresses
// ---------------------------------------------------------------------------

/// Dotted text.
pub open spec fn dotted(o: Seq<u8>) -> Seq<char> {
    text::decimal(o[0] as nat) + "."@ + text::decimal(o[1] as nat) + "."@ + text::decimal(
        o[2] as nat,
    ) + "."@ + text::decimal(o[3] as nat)
}

/// The character of the hexadecimal digit `d`.
pub open spec fn hex_char(d: nat) -> char {
    if d < 10 {
        text::digit_char(d)
    } else {
        ('a' as u32 + d - 10) as char
    }
}

/// `n` in hexadecimal.
pub open spec fn hex(n: nat) -> Seq<char>
    decreases n,
{
    if n < 16 {
        seq![hex_char(n)]
    } else {
        hex(n / 16).push(hex_char(n % 16))
    }
}

/// Groups in hexadecimal with colons between.
pub open spec fn colons(g: Seq<u16>) -> Seq<char>
    decreases g.len(),
{
    if g.len() == 0 {
        Seq::empty()
    } else if g.len() == 1 {
        hex(g[0] as nat)
    } else {
        colons(g.drop_last()) + ":"@ + hex(g.last() as nat)
    }
}

/// How many zeros in a row start at position `i`.
pub open spec fn zeros_at(g: Seq<u16>, i: int) -> int
    decreases g.len() - i,
{
    if 0 <= i < g.len() && g[i] == 0 {
        1 + zeros_at(g, i + 1)
    } else {
        0
    }
}

/// Where the longest row of zeros at or after `i` starts, the first of equals.
pub open spec fn longest_zeros(g: Seq<u16>, i: int) -> int
    decreases g.len() - i,
{
    if i >= g.len() {
        g.len() as int
    } else {
        let rest = longest_zeros(g, i + 1);
        if zeros_at(g, i) >= zeros_at(g, rest) {
            i
        } else {
            rest
        }
    }
}

/// Whether the groups hold an IPv4-mapped address.
pub open spec fn is_mapped(g: Seq<u16>) -> bool {
    g[0] == 0 && g[1] == 0 && g[2] == 0 && g[3] == 0 && g[4] == 0 && g[5] == 0xffff
}

/// The octets of the last two groups.
pub open spec fn mapped_octets(g: Seq<u16>) -> Seq<u8> {
    seq![(g[6] / 256) as u8, (g[6] % 256) as u8, (g[7] / 256) as u8, (g[7] % 256) as u8]
}

/// The text of eight groups: a mapped address dotted, else the longest row of two or
/// more zeros written as `::`.
pub open spec fn v6_text(g: Seq<u16>) -> Seq<char> {
    let at = longest_zeros(g, 0);
    let n = zeros_at(g, at);
    if is_mapped(g) {
        "::ffff:"@ + dotted(mapped_octets(g))
    } else if n > 1 {
        colons(g.take(at)) + "::"@ + colons(g.skip(at + n))
    } else {
        colons(g)
    }
}

/// The text of an address with a port.
pub open spec fn socket_text(a: (IpValue, u16, u32)) -> Seq<char> {
    let port = text::decimal(a.1 as nat);
    match a.0 {
        IpValue::V4(o) => dotted(o) + ":"@ + port,
        IpValue::V6(g) => if a.2 == 0 {
            "["@ + v6_text(g) + "]:"@ + port
        } else {
            "["@ + v6_text(g) + "%"@ + text::decimal(a.2 as nat) + "]:"@ + port
        },
    }
}

fn push_dotted(out: &mut String, o: &[u8; 4])
    ensures
        final(out)@ == old(out)@ + dotted(o@),
{
    text::push_decimal(out, o[0] as u64);
    out.append(".");
    text::push_decimal(out, o[1] as u64);
    out.append(".");
    text::push_decimal(out, o[2] as u64);
    out.append(".");
    text::push_decimal(out, o[3] as u64);
    assert(out@ =~= old(out)@ + dotted(o@));
}

fn push_hex(out: &mut String, n: u16)
    ensures
        final(out)@ == old(out)@ + hex(n as nat),
    decreases n,
{
    if n >= 16 {
        push_hex(out, n / 16);
    }
    let d: u8 = (n % 16) as u8;
    if d < 10 {
        out.push((48 + d) as char);
    } else {
        out.push((97 + (d - 10)) as char);
    }
    assert(out@ =~= old(out)@ + hex(n as nat));
}

fn push_colons(out: &mut String, g: &[u16])
    ensures
        final(out)@ == old(out)@ + colons(g@),
{
    let mut i: usize = 0;
    assert(out@ + colons(g@.take(0)) =~= out@);
    while i < g.len()
        invariant
            i <= g.len(),
            out@ == old(out)@ + colons(g@.take(i as int)),
        decreases g.len() - i,
    {
        proof {
            assert(g@.take(i + 1).drop_last() =~= g@.take(i as int));
        }
        if i > 0 {
            out.append(":");
        }
        push_hex(out, g[i]);
        assert(out@ =~= old(out)@ + colons(g@.take(i + 1)));
        i = i + 1;
    }
    assert(g@.take(i as int) =~= g@);
}

fn count_zeros(g: &[u16; 8], from: usize) -> (r: usize)
    requires
        from <= 8,
    ensures
        r == zeros_at(g@, from as int),
        from + r <= 8,
{
    let mut n: usize = 0;
    while from + n < 8 && g[from + n] == 0
        invariant
            from + n <= 8,
            zeros_at(g@, from as int) == n + zeros_at(g@, from + n),
        decreases 8 - from - n,
    {
        n = n + 1;
    }
    n
}

fn find_zeros(g: &[u16; 8]) -> (r: (usize, usize))
    ensures
        r.0 == longest_zeros(g@, 0),
        r.1 == zeros_at(g@, r.0 as int),
        r.0 + r.1 <= 8,
{
    let mut at: usize = 8;
    let mut n: usize = 0;
    let mut i: usize = 8;
    while i > 0
        invariant
            i <= 8,
            at == longest_zeros(g@, i as int),
            n == zeros_at(g@, at as int),
            at + n <= 8,
        decreases i,
    {
        i = i - 1;
        let here: usize = count_zeros(g, i);
        if here >= n {
            at = i;
            n = here;
        }
    }
    (at, n)
}

fn push_v6(out: &mut String, g: &[u16; 8])
    ensures
        final(out)@ == old(out)@ + v6_text(g@),
{
    if g[0] == 0 && g[1] == 0 && g[2] == 0 && g[3] == 0 && g[4] == 0 && g[5] == 0xffff {
        out.append("::ffff:");
        let o: [u8; 4] = mapped(g);
        push_dotted(out, &o);
        assert(out@ =~= old(out)@ + v6_text(g@));
        return;
    }
    let (at, n) = find_zeros(g);
    let all = g.as_slice();
    if n > 1 {
        push_colons(out, slice_subrange(all, 0, at));
        out.append("::");
        push_colons(out, slice_subrange(all, at + n, 8));
        assert(g@.subrange(at + n, 8) =~= g@.skip(at + n));
        assert(out@ =~= old(out)@ + v6_text(g@));
    } else {
        push_colons(out, all);
    }
}

/// The octets of the last two groups.
pub fn mapped(g: &[u16; 8]) -> (r: [u8; 4])
    ensures
        r@ == mapped_octets(g@),
{
    let o: [u8; 4] = [
        (g[6] / 256) as u8,
        (g[6] % 256) as u8,
        (g[7] / 256) as u8,
        (g[7] % 256) as u8,
    ];
    assert(o@ =~= mapped_octets(g@));
    o
}

impl SocketAddr {
    /// The text of the address with its port.
    pub fn to_text(&self) -> (r: String)
        ensures
            r@ == socket_text(self@),
    {
        let mut out = String::new();
        match self.ip {
            IpAddr::V4(o) => {
                push_dotted(&mut out, &o);
                out.append(":");
            },
            IpAddr::V6(g) => {
                out.append("[");
                push_v6(&mut out, &g);
                if self.scope_id != 0 {
                    out.append("%");
                    text::push_decimal(&mut out, self.scope_id as u64);
                }
                out.append("]:");
            },
        }
        text::push_decimal(&mut out, self.port as u64);
        assert(out@ =~= socket_text(self@));
        out
    }
}

// ---------------------------------------------------------------------------
// Laws
// ---------------------------------------------------------------------------

proof fn lemma_written_decimal(s: Seq<char>)
    requires
        text::is_decimal(s),
        s.len() > 1 ==> s[0] != '0',
    ensures
        text::decimal(text::decimal_value(s)) == s,
    decreases s.len(),
{
    assert(text::is_digit(s[s.len() - 1]));
    let front = s.drop_last();
    let d = text::digit(s.last());
    assert(d < 10);
    assert(text::digit_char(d) == s.last());
    if s.len() == 1 {
        assert(text::decimal_value(front) == 0);
        assert(text::decimal(d) =~= s);
    } else {
        assert forall|i: int| 0 <= i < front.len() implies text::is_digit(#[trigger] front[i]) by {
            assert(front[i] == s[i]);
        }
        assert(front[0] == s[0]);
        lemma_written_decimal(front);
        lemma_not_zero(front);
        let v = text::decimal_value(front);
        assert((v * 10 + d) / 10 == v);
        assert((v * 10 + d) % 10 == d);
        assert(front.push(s.last()) =~= s);
    }
}

proof fn lemma_not_zero(s: Seq<char>)
    requires
        text::is_decimal(s),
        s[0] != '0',
    ensures
        text::decimal_value(s) > 0,
    decreases s.len(),
{
    assert(text::is_digit(s[0]));
    if s.len() > 1 {
        let front = s.drop_last();
        assert forall|i: int| 0 <= i < front.len() implies text::is_digit(#[trigger] front[i]) by {
            assert(front[i] == s[i]);
        }
        lemma_not_zero(front);
    } else {
        assert(s.last() == s[0]);
        assert(text::digit(s[0]) > 0);
    }
}

proof fn lemma_octet(n: nat)
    requires
        n <= 255,
    ensures
        is_octet(text::decimal(n)),
        text::decimal_value(text::decimal(n)) == n,
        !text::decimal(n).contains('.'),
        !text::decimal(n).contains(':'),
{
    text::law_decimal_reads_back(n, 255);
    let s = text::decimal(n);
    reveal_with_fuel(text::decimal, 4);
    assert(s.len() <= 3);
    if s.contains('.') {
        assert(text::is_digit(s[s.index_of('.')]));
    }
    if s.contains(':') {
        assert(text::is_digit(s[s.index_of(':')]));
    }
}

spec fn four(o: Seq<u8>) -> Seq<Seq<char>> {
    Seq::new(4, |i: int| text::decimal(o[i] as nat))
}

proof fn lemma_dotted_is_joined(o: Seq<u8>)
    ensures
        dotted(o) == text::join(four(o), seq!['.']),
{
    reveal_strlit(".");
    assert("."@ =~= seq!['.']);
    reveal_with_fuel(text::join, 5);
    let p = four(o);
    assert(p.drop_last() =~= seq![p[0], p[1], p[2]]);
    assert(seq![p[0], p[1], p[2]].drop_last() =~= seq![p[0], p[1]]);
    assert(seq![p[0], p[1]].drop_last() =~= seq![p[0]]);
}

/// Four octets and their dotted text stand for each other: the text of any four octets is
/// read as these octets, and no other text is.
pub proof fn law_dotted_text(s: Seq<char>, o: Seq<u8>)
    requires
        o.len() == 4,
    ensures
        v4_octets(s) == Some(o) <==> s == dotted(o),
{
    let p = four(o);
    lemma_dotted_is_joined(o);
    assert forall|i: int| 0 <= i < 4 implies is_octet(#[trigger] p[i]) && text::decimal_value(p[i])
        == o[i] && !p[i].contains('.') by {
        lemma_octet_of(o[i]);
    }
    text::law_joined_parts_are_cut_out_again(p, '.');
    if s == dotted(o) {
        assert(v4_octets(s)->0 =~= o);
    }
    if v4_octets(s) == Some(o) {
        let q = text::split(s, '.');
        text::law_cutting_loses_nothing(s, '.');
        assert forall|i: int| 0 <= i < 4 implies q[i] == #[trigger] p[i] by {
            assert(is_octet(q[i]));
            assert(o[i] == text::decimal_value(q[i]) as u8);
            lemma_written_decimal(q[i]);
        }
        assert(q =~= p);
    }
}

proof fn lemma_octet_of(b: u8)
    ensures
        is_octet(text::decimal(b as nat)),
        text::decimal_value(text::decimal(b as nat)) == b,
        !text::decimal(b as nat).contains('.'),
        !text::decimal(b as nat).contains(':'),
{
    lemma_octet(b as nat);
}

proof fn lemma_digit_of(d: nat)
    requires
        d < 16,
    ensures
        text::is_hex_digit(hex_char(d)),
        text::hex_digit(hex_char(d)) == d,
        hex_char(d) != ':',
{
}

proof fn lemma_hex(n: nat)
    ensures
        hex(n).len() > 0,
        hex_value(hex(n)) == n,
        forall|i: int|
            0 <= i < hex(n).len() ==> text::is_hex_digit(#[trigger] hex(n)[i]) && hex(n)[i] != ':',
        !hex(n).contains(':'),
    decreases n,
{
    lemma_digit_of(n % 16);
    if n < 16 {
        assert(hex(n).drop_last() =~= Seq::empty());
        assert(hex_value(hex(n).drop_last()) == 0);
    } else {
        lemma_hex(n / 16);
        assert(hex(n).drop_last() =~= hex(n / 16));
        assert forall|i: int| 0 <= i < hex(n).len() implies text::is_hex_digit(#[trigger] hex(n)[i])
            && hex(n)[i] != ':' by {
            if i < hex(n / 16).len() {
                assert(hex(n)[i] == hex(n / 16)[i]);
            }
        }
    }
    if hex(n).contains(':') {
        assert(hex(n)[hex(n).index_of(':')] != ':');
    }
}

proof fn lemma_group(g: u16)
    ensures
        is_group(hex(g as nat)),
        hex_value(hex(g as nat)) == g,
        !hex(g as nat).contains(':'),
{
    lemma_hex(g as nat);
    reveal_with_fuel(hex, 5);
    assert(hex(g as nat).len() <= 4);
}

spec fn hexes(g: Seq<u16>) -> Seq<Seq<char>> {
    Seq::new(g.len(), |i: int| hex(g[i] as nat))
}

proof fn lemma_colons_are_joined(g: Seq<u16>)
    ensures
        colons(g) == text::join(hexes(g), seq![':']),
    decreases g.len(),
{
    reveal_strlit(":");
    assert(":"@ =~= seq![':']);
    if g.len() > 1 {
        lemma_colons_are_joined(g.drop_last());
        assert(hexes(g).drop_last() =~= hexes(g.drop_last()));
    }
}

proof fn lemma_group_run(g: Seq<u16>, dotted: bool)
    ensures
        group_run(hexes(g), dotted) == Some(g),
    decreases g.len(),
{
    if g.len() == 0 {
        assert(g =~= Seq::empty());
    } else {
        lemma_group(g[0]);
        lemma_group_run(g.skip(1), dotted);
        assert(hexes(g).skip(1) =~= hexes(g.skip(1)));
        assert(seq![g[0]] + g.skip(1) =~= g);
    }
}

proof fn lemma_groups(g: Seq<u16>, dotted: bool)
    ensures
        groups(colons(g), dotted) == Some(g),
{
    lemma_colons_are_joined(g);
    if g.len() == 0 {
        assert(g =~= Seq::empty());
    } else {
        let p = hexes(g);
        assert forall|i: int| 0 <= i < p.len() implies !(#[trigger] p[i]).contains(':') by {
            lemma_group(g[i]);
        }
        text::law_joined_parts_are_cut_out_again(p, ':');
        lemma_group_run(g, dotted);
        lemma_colons(g);
    }
}

spec fn double_at(s: Seq<char>, i: int) -> bool {
    0 <= i && i + 1 < s.len() && s[i] == ':' && s[i + 1] == ':'
}

proof fn lemma_colons(g: Seq<u16>)
    requires
        g.len() > 0,
    ensures
        colons(g).len() > 0,
        colons(g)[0] != ':',
        colons(g).last() != ':',
        forall|i: int| !#[trigger] double_at(colons(g), i),
        forall|i: int|
            0 <= i < colons(g).len() ==> text::is_hex_digit(#[trigger] colons(g)[i]) || colons(g)[i]
                == ':',
        g.len() > 1 ==> colons(g).contains(':'),
    decreases g.len(),
{
    reveal_strlit(":");
    let s = colons(g);
    lemma_hex(g.last() as nat);
    let h = hex(g.last() as nat);
    if g.len() == 1 {
        assert(g.last() == g[0]);
        assert forall|i: int| !#[trigger] double_at(s, i) by {
            if 0 <= i < s.len() {
                assert(s[i] != ':');
            }
        }
        assert(s[0] != ':');
        assert(s[s.len() - 1] != ':');
    } else {
        let front = colons(g.drop_last());
        lemma_colons(g.drop_last());
        assert(s == front + ":"@ + h);
        assert(s[0] == front[0]);
        assert(s[s.len() - 1] == h[h.len() - 1]);
        assert(s[front.len() as int] == ':');
        assert forall|i: int| !#[trigger] double_at(s, i) by {
            if double_at(s, i) {
                if i + 1 < front.len() {
                    assert(double_at(front, i));
                } else if i + 1 == front.len() {
                    assert(s[i] == front.last());
                } else if i + 1 > front.len() {
                    assert(s[i + 1] == h[i - front.len()]);
                }
            }
        }
        assert forall|i: int| 0 <= i < s.len() implies text::is_hex_digit(#[trigger] s[i]) || s[i]
            == ':' by {
            if i < front.len() {
                assert(s[i] == front[i]);
            } else if i > front.len() {
                assert(s[i] == h[i - front.len() - 1]);
            }
        }
    }
}

proof fn lemma_gap_is(s: Seq<char>, at: int)
    requires
        0 <= at <= s.len(),
        at == s.len() || double_at(s, at),
        forall|i: int| 0 <= i < at ==> !#[trigger] double_at(s, i),
    ensures
        gap(s) == at,
    decreases at,
{
    if at > 0 {
        assert(!double_at(s, 0));
        let rest = s.skip(1);
        assert forall|i: int| 0 <= i < at - 1 implies !#[trigger] double_at(rest, i) by {
            assert(!double_at(s, i + 1));
        }
        if at < s.len() {
            assert(double_at(rest, at - 1));
        }
        lemma_gap_is(rest, at - 1);
    }
}

/// Eight groups in hexadecimal with colons between are read as these groups.
pub proof fn law_groups_written_out(g: Seq<u16>)
    requires
        g.len() == 8,
    ensures
        v6_groups(colons(g)) == Some(g),
{
    let s = colons(g);
    lemma_colons(g);
    assert forall|i: int| 0 <= i < s.len() implies !#[trigger] double_at(s, i) by {}
    lemma_gap_is(s, s.len() as int);
    lemma_groups(g, true);
}

/// Two colons stand for the zeros between the groups before and behind them, as many as are
/// missing to eight.
pub proof fn law_two_colons_stand_for_zeros(a: Seq<u16>, b: Seq<u16>)
    requires
        a.len() + b.len() <= 7,
    ensures
        v6_groups(colons(a) + "::"@ + colons(b)) == Some(
            a + Seq::new((8 - a.len() - b.len()) as nat, |i: int| 0u16) + b,
        ),
{
    reveal_strlit("::");
    let head = colons(a);
    let tail = colons(b);
    let s = head + "::"@ + tail;
    let at = head.len() as int;
    assert(s[at] == ':' && s[at + 1] == ':');
    assert(double_at(s, at));
    assert forall|i: int| 0 <= i < at implies !#[trigger] double_at(s, i) by {
        if a.len() > 0 {
            lemma_colons(a);
            if i + 1 < at {
                assert(!double_at(head, i));
                assert(s[i] == head[i] && s[i + 1] == head[i + 1]);
            } else {
                assert(s[i] == head.last());
            }
        }
    }
    lemma_gap_is(s, at);
    assert(s.take(at) =~= head);
    assert(s.skip(at + 2) =~= tail);
    lemma_groups(a, false);
    lemma_groups(b, true);
}

proof fn lemma_zeros(g: Seq<u16>, i: int)
    requires
        0 <= i <= g.len(),
    ensures
        0 <= zeros_at(g, i) <= g.len() - i,
        forall|k: int| i <= k < i + zeros_at(g, i) ==> #[trigger] g[k] == 0,
    decreases g.len() - i,
{
    if i < g.len() && g[i] == 0 {
        lemma_zeros(g, i + 1);
    }
}

proof fn lemma_longest(g: Seq<u16>, i: int)
    requires
        0 <= i <= g.len(),
    ensures
        i <= longest_zeros(g, i) <= g.len(),
    decreases g.len() - i,
{
    if i < g.len() {
        lemma_longest(g, i + 1);
    }
}

proof fn lemma_mapped_halves(a: u16)
    ensures
        ((a / 256) as u8) * 256 + ((a % 256) as u8) == a,
{
}

proof fn lemma_mapped_text(g: Seq<u16>)
    requires
        g.len() == 8,
        is_mapped(g),
    ensures
        v6_groups(v6_text(g)) == Some(g),
        v6_text(g).contains(':'),
{
    reveal_strlit("::ffff:");
    let o = mapped_octets(g);
    let d = dotted(o);
    let s = v6_text(g);
    assert(s == "::ffff:"@ + d);
    assert(s[0] == ':' && s[1] == ':');
    assert(double_at(s, 0));
    lemma_gap_is(s, 0);
    assert(s.take(0) =~= Seq::empty());
    let f = seq!['f', 'f', 'f', 'f'];
    let rest = s.skip(2);
    assert(rest =~= f + seq![':'] + d);
    lemma_dotted_chars(o);
    let p = seq![f, d];
    assert(p.drop_last() =~= seq![f]);
    assert(text::join(seq![f], seq![':']) == f);
    assert(text::join(p, seq![':']) =~= rest);
    assert forall|i: int| 0 <= i < p.len() implies !(#[trigger] p[i]).contains(':') by {
        if i == 0 {
            if f.contains(':') {
                assert(f[f.index_of(':')] == 'f');
            }
        }
    }
    text::law_joined_parts_are_cut_out_again(p, ':');
    law_dotted_text(d, o);
    assert(is_group(f));
    assert(hex_value(f) == 0xffff) by {
        reveal_with_fuel(hex_value, 5);
        assert(f.drop_last() =~= seq!['f', 'f', 'f']);
        assert(seq!['f', 'f', 'f'].drop_last() =~= seq!['f', 'f']);
        assert(seq!['f', 'f'].drop_last() =~= seq!['f']);
        assert(seq!['f'].drop_last() =~= Seq::empty());
        assert(text::hex_digit('f') == 15);
    }
    assert(p.skip(1) =~= seq![d]);
    assert(!is_group(d));
    lemma_mapped_halves(g[6]);
    lemma_mapped_halves(g[7]);
    assert(octet_groups(o) =~= seq![g[6], g[7]]);
    assert(group_run(seq![d], true) == Some(octet_groups(o)));
    let tail = seq![0xffffu16] + octet_groups(o);
    assert(group_run(p, true) == Some(tail));
    assert(groups(rest, true) == Some(tail));
    assert(Seq::<u16>::empty() + Seq::new(5, |i: int| 0u16) + tail =~= g);
}

proof fn lemma_dotted_chars(o: Seq<u8>)
    requires
        o.len() == 4,
    ensures
        dotted(o).len() >= 7,
        text::is_digit(dotted(o)[0]),
        !dotted(o).contains(':'),
        forall|i: int|
            0 <= i < dotted(o).len() ==> text::is_digit(#[trigger] dotted(o)[i]) || dotted(o)[i]
                == '.',
{
    reveal_strlit(".");
    text::law_decimal_reads_back(o[0] as nat, 255);
    text::law_decimal_reads_back(o[1] as nat, 255);
    text::law_decimal_reads_back(o[2] as nat, 255);
    text::law_decimal_reads_back(o[3] as nat, 255);
    let a = text::decimal(o[0] as nat);
    let b = text::decimal(o[1] as nat);
    let c = text::decimal(o[2] as nat);
    let d = text::decimal(o[3] as nat);
    let s = dotted(o);
    assert(s == a + "."@ + b + "."@ + c + "."@ + d);
    assert(s[0] == a[0]);
    assert(text::is_digit(a[0]));
    assert forall|i: int| 0 <= i < s.len() implies text::is_digit(#[trigger] s[i]) || s[i]
        == '.' by {
        let i1 = a.len() + 1;
        let i2 = i1 + b.len() + 1;
        let i3 = i2 + c.len() + 1;
        if i < a.len() {
            assert(s[i] == a[i]);
        } else if i1 <= i < i1 + b.len() {
            assert(s[i] == b[i - i1]);
        } else if i2 <= i < i2 + c.len() {
            assert(s[i] == c[i - i2]);
        } else if i >= i3 {
            assert(s[i] == d[i - i3]);
        }
    }
    if s.contains(':') {
        let k = s.index_of(':');
        assert(text::is_digit(s[k]) || s[k] == '.');
    }
}

/// The text of eight groups is read as these groups, whichever way it was shortened.
pub proof fn law_groups_read_back(g: Seq<u16>)
    requires
        g.len() == 8,
    ensures
        v6_groups(v6_text(g)) == Some(g),
{
    if is_mapped(g) {
        lemma_mapped_text(g);
    } else {
        lemma_longest(g, 0);
        let at = longest_zeros(g, 0);
        lemma_zeros(g, at);
        let n = zeros_at(g, at);
        if n > 1 {
            let a = g.take(at);
            let b = g.skip(at + n);
            law_two_colons_stand_for_zeros(a, b);
            assert(a + Seq::new((8 - a.len() - b.len()) as nat, |i: int| 0u16) + b =~= g);
        } else {
            law_groups_written_out(g);
        }
    }
}

proof fn lemma_v6_chars(g: Seq<u16>)
    requires
        g.len() == 8,
    ensures
        v6_text(g).contains(':'),
        forall|i: int|
            0 <= i < v6_text(g).len() ==> text::is_hex_digit(#[trigger] v6_text(g)[i])
                || v6_text(g)[i] == ':' || v6_text(g)[i] == '.',
{
    let s = v6_text(g);
    if is_mapped(g) {
        lemma_mapped_text(g);
        reveal_strlit("::ffff:");
        let d = dotted(mapped_octets(g));
        lemma_dotted_chars(mapped_octets(g));
        assert forall|i: int| 0 <= i < s.len() implies text::is_hex_digit(#[trigger] s[i]) || s[i]
            == ':' || s[i] == '.' by {
            if i >= 7 {
                assert(s[i] == d[i - 7]);
            } else {
                assert(s[i] == "::ffff:"@[i]);
            }
        }
    } else {
        reveal_strlit("::");
        lemma_longest(g, 0);
        let at = longest_zeros(g, 0);
        lemma_zeros(g, at);
        let n = zeros_at(g, at);
        if n > 1 {
            let a = colons(g.take(at));
            let b = colons(g.skip(at + n));
            assert(s == a + "::"@ + b);
            assert(s[a.len() as int] == ':');
            if at > 0 {
                lemma_colons(g.take(at));
            }
            if at + n < g.len() {
                lemma_colons(g.skip(at + n));
            }
            assert forall|i: int| 0 <= i < s.len() implies text::is_hex_digit(#[trigger] s[i])
                || s[i] == ':' || s[i] == '.' by {
                if i < a.len() {
                    assert(s[i] == a[i]);
                } else if i >= a.len() + 2 {
                    assert(s[i] == b[i - a.len() - 2]);
                }
            }
        } else {
            lemma_colons(g);
        }
    }
}

/// Every address that is written is read as that address.
pub proof fn law_addresses_read_back(o: Seq<u8>, g: Seq<u16>)
    requires
        o.len() == 4,
        g.len() == 8,
    ensures
        ip_literal(dotted(o)) == Some(IpValue::V4(o)),
        ip_literal(v6_text(g)) == Some(IpValue::V6(g)),
{
    law_dotted_text(dotted(o), o);
    law_groups_read_back(g);
    lemma_v6_chars(g);
    lemma_not_dotted(v6_text(g));
}

proof fn lemma_not_dotted(s: Seq<char>)
    requires
        s.contains(':') || (s.len() > 0 && s[0] == '['),
    ensures
        v4_octets(s) is None,
{
    if let Some(o) = v4_octets(s) {
        law_dotted_text(s, o);
        lemma_dotted_chars(o);
    }
}

proof fn lemma_v4_socket_text(o: Seq<u8>, port: u16)
    requires
        o.len() == 4,
    ensures
        v4_socket(socket_text((IpValue::V4(o), port, 0))) == Some((IpValue::V4(o), port, 0u32)),
{
    reveal_strlit(":");
    let digits = text::decimal(port as nat);
    text::law_decimal_reads_back(port as nat, 65535);
    let d = dotted(o);
    lemma_dotted_chars(o);
    law_dotted_text(d, o);
    let s = socket_text((IpValue::V4(o), port, 0));
    assert(s == d + ":"@ + digits);
    assert forall|j: int| 0 <= j < d.len() implies s[j] != ':' by {
        assert(s[j] == d[j]);
        assert(text::is_digit(d[j]) || d[j] == '.');
    }
    assert(s[d.len() as int] == ':');
    text::lemma_find_is(s, ':', d.len() as int);
    assert(s.take(d.len() as int) =~= d);
    assert(s.skip(d.len() as int + 1) =~= digits);
}

/// What stands in the brackets: the address, and the scope where there is one.
spec fn bracketed(g: Seq<u16>, scope: u32) -> Seq<char> {
    if scope == 0 {
        v6_text(g)
    } else {
        v6_text(g) + "%"@ + text::decimal(scope as nat)
    }
}

proof fn lemma_bracketed(g: Seq<u16>, scope: u32)
    requires
        g.len() == 8,
    ensures
        scoped(bracketed(g, scope)) == Some((g, scope)),
        forall|j: int| 0 <= j < bracketed(g, scope).len() ==> #[trigger] bracketed(g, scope)[j] != ']',
{
    reveal_strlit("%");
    let v = v6_text(g);
    let inner = bracketed(g, scope);
    let zone = text::decimal(scope as nat);
    lemma_v6_chars(g);
    law_groups_read_back(g);
    text::law_decimal_reads_back(scope as nat, 0xffff_ffff);
    assert forall|j: int| 0 <= j < v.len() implies v[j] != '%' && v[j] != ']' by {
        assert(text::is_hex_digit(v[j]) || v[j] == ':' || v[j] == '.');
    }
    if scope == 0 {
        text::lemma_find_is(inner, '%', inner.len() as int);
    } else {
        assert(inner[v.len() as int] == '%');
        assert forall|j: int| 0 <= j < v.len() implies inner[j] != '%' by {
            assert(inner[j] == v[j]);
        }
        text::lemma_find_is(inner, '%', v.len() as int);
        assert(inner.take(v.len() as int) =~= v);
        assert(inner.skip(v.len() as int + 1) =~= zone);
        assert forall|j: int| 0 <= j < inner.len() implies #[trigger] inner[j] != ']' by {
            if j < v.len() {
                assert(inner[j] == v[j]);
            } else if j > v.len() {
                assert(inner[j] == zone[j - v.len() - 1]);
                assert(text::is_digit(zone[j - v.len() - 1]));
            }
        }
    }
}

proof fn lemma_v6_socket_text(g: Seq<u16>, port: u16, scope: u32)
    requires
        g.len() == 8,
    ensures
        v6_socket(socket_text((IpValue::V6(g), port, scope))) == Some(
            (IpValue::V6(g), port, scope),
        ),
        socket_text((IpValue::V6(g), port, scope))[0] == '[',
{
    reveal_strlit("[");
    reveal_strlit("]:");
    let digits = text::decimal(port as nat);
    text::law_decimal_reads_back(port as nat, 65535);
    let inner = bracketed(g, scope);
    lemma_bracketed(g, scope);
    let t = socket_text((IpValue::V6(g), port, scope));
    assert(t =~= "["@ + inner + "]:"@ + digits);
    let at = inner.len() as int + 1;
    assert(t[0] == '[');
    assert(t[at] == ']' && t[at + 1] == ':');
    assert forall|j: int| 0 <= j < at implies t[j] != ']' by {
        if j > 0 {
            assert(t[j] == inner[j - 1]);
        }
    }
    text::lemma_find_is(t, ']', at);
    assert(t.subrange(1, at) =~= inner);
    assert(t.skip(at + 2) =~= digits);
}

/// An address with a port that is written is read as that address and that port, and as
/// that scope where it has one.
pub proof fn law_sockets_read_back(o: Seq<u8>, g: Seq<u16>, port: u16, scope: u32)
    requires
        o.len() == 4,
        g.len() == 8,
    ensures
        socket_literal(socket_text((IpValue::V4(o), port, 0))) == Some((IpValue::V4(o), port, 0u32)),
        socket_literal(socket_text((IpValue::V6(g), port, scope))) == Some(
            (IpValue::V6(g), port, scope),
        ),
{
    lemma_v4_socket_text(o, port);
    lemma_v6_socket_text(g, port, scope);
    let t = socket_text((IpValue::V6(g), port, scope));
    text::lemma_find(t, ':');
    let colon = text::find(t, ':');
    if 0 < colon <= t.len() {
        let before = t.take(colon);
        assert(before[0] == '[');
        lemma_not_dotted(before);
    }
}

proof fn lemma_longest_is(g: Seq<u16>, i: int, k: int)
    requires
        0 <= i <= k < g.len(),
    ensures
        zeros_at(g, longest_zeros(g, i)) >= zeros_at(g, k),
        zeros_at(g, longest_zeros(g, i)) == zeros_at(g, k) ==> longest_zeros(g, i) <= k,
    decreases g.len() - i,
{
    lemma_longest(g, i + 1);
    if i < k {
        lemma_longest_is(g, i + 1, k);
    } else {
        lemma_zeros(g, k);
        if i + 1 < g.len() {
            lemma_longest(g, i + 1);
        }
    }
}

proof fn lemma_all_zeros(g: Seq<u16>, i: int, n: int)
    requires
        0 <= i,
        0 <= n,
        i + n <= g.len(),
        forall|k: int| i <= k < i + n ==> #[trigger] g[k] == 0,
    ensures
        zeros_at(g, i) >= n,
    decreases n,
{
    if n > 0 {
        assert(g[i] == 0);
        lemma_all_zeros(g, i + 1, n - 1);
    } else {
        lemma_zeros(g, i);
    }
}

/// Where two or more groups in a row are zero, the text leaves out a row of zeros that is
/// at least as long, and the first of those as long as it.
pub proof fn law_the_longest_row_of_zeros_is_left_out(g: Seq<u16>, i: int, n: int) -> (kept: (
    Seq<u16>,
    Seq<u16>,
))
    requires
        g.len() == 8,
        !is_mapped(g),
        0 <= i,
        2 <= n,
        i + n <= 8,
        forall|k: int| i <= k < i + n ==> #[trigger] g[k] == 0,
    ensures
        v6_text(g) == colons(kept.0) + "::"@ + colons(kept.1),
        kept.0.len() + n + kept.1.len() <= 8,
        kept.0 + Seq::new((8 - kept.0.len() - kept.1.len()) as nat, |k: int| 0u16) + kept.1 == g,
        kept.0.len() + n + kept.1.len() == 8 ==> kept.0.len() <= i,
{
    lemma_all_zeros(g, i, n);
    lemma_longest(g, 0);
    lemma_longest_is(g, 0, i);
    let at = longest_zeros(g, 0);
    lemma_zeros(g, at);
    let m = zeros_at(g, at);
    let kept = (g.take(at), g.skip(at + m));
    assert(kept.0 + Seq::new((8 - kept.0.len() - kept.1.len()) as nat, |k: int| 0u16) + kept.1
        =~= g);
    kept
}

/// Where no two groups in a row are zero, every group is written.
pub proof fn law_single_zeros_are_written(g: Seq<u16>)
    requires
        g.len() == 8,
        forall|k: int| 0 <= k < 7 ==> (#[trigger] g[k] != 0 || g[k + 1] != 0),
    ensures
        v6_text(g) == colons(g),
{
    lemma_longest(g, 0);
    let at = longest_zeros(g, 0);
    reveal_with_fuel(zeros_at, 3);
    assert(g[0] != 0 || g[1] != 0);
    if 0 <= at < 7 {
        assert(g[at] != 0 || g[at + 1] != 0);
    }
}

/// An IPv4 address that is mapped to IPv6 is written with its dotted text.
pub proof fn law_mapped_addresses_are_dotted(o: Seq<u8>, g: Seq<u16>)
    requires
        o.len() == 4,
        g.len() == 8,
        forall|k: int| 0 <= k < 5 ==> #[trigger] g[k] == 0,
        g[5] == 0xffff,
        g[6] == o[0] * 256 + o[1],
        g[7] == o[2] * 256 + o[3],
    ensures
        v6_text(g) == "::ffff:"@ + dotted(o),
{
    assert(mapped_octets(g) =~= o);
}

/// Hexadecimal is written in small letters and without a zero in front, and it counts in
/// sixteens.
pub proof fn law_how_hexadecimal_is_written(n: nat)
    ensures
        hex_value(hex(n)) == n,
        hex(n).len() > 0,
        hex(n).len() > 1 ==> hex(n)[0] != '0',
        forall|i: int|
            0 <= i < hex(n).len() ==> '0' <= #[trigger] hex(n)[i] <= '9' || 'a' <= hex(n)[i] <= 'f',
    decreases n,
{
    lemma_hex(n);
    lemma_digit_is_small(n % 16);
    if n >= 16 {
        let front = hex(n / 16);
        law_how_hexadecimal_is_written(n / 16);
        if n / 16 < 16 {
            lemma_digit_is_small(n / 16);
            assert(front == seq![hex_char(n / 16)]);
        } else {
            lemma_hex(n / 16 / 16);
            assert(front == hex(n / 16 / 16).push(hex_char((n / 16) % 16)));
        }
        assert(hex(n)[0] == front[0]);
        assert forall|i: int| 0 <= i < hex(n).len() implies '0' <= #[trigger] hex(n)[i] <= '9'
            || 'a' <= hex(n)[i] <= 'f' by {
            if i < front.len() {
                assert(hex(n)[i] == front[i]);
            }
        }
    }
}

proof fn lemma_digit_is_small(d: nat)
    requires
        d < 16,
    ensures
        '0' <= hex_char(d) <= '9' || 'a' <= hex_char(d) <= 'f',
        d > 0 ==> hex_char(d) != '0',
{
}

/// Hexadecimal digits are read in either case.
pub proof fn law_hexadecimal_knows_no_case(s: Seq<char>)
    ensures
        is_group(text::lowered(s)) == is_group(s),
        is_group(s) ==> hex_value(text::lowered(s)) == hex_value(s),
{
    let t = text::lowered(s);
    assert forall|i: int| 0 <= i < s.len() implies text::is_hex_digit(#[trigger] t[i])
        == text::is_hex_digit(s[i]) by {
        lemma_digit_in_either_case(s[i]);
    }
    if is_group(s) {
        assert forall|i: int| 0 <= i < t.len() implies text::is_hex_digit(#[trigger] t[i]) by {
            assert(text::is_hex_digit(s[i]));
        }
        lemma_value_in_either_case(s);
    }
    if is_group(t) {
        assert forall|i: int| 0 <= i < s.len() implies text::is_hex_digit(#[trigger] s[i]) by {
            assert(text::is_hex_digit(t[i]));
        }
    }
}

proof fn lemma_value_in_either_case(s: Seq<char>)
    requires
        forall|i: int| 0 <= i < s.len() ==> text::is_hex_digit(#[trigger] s[i]),
    ensures
        hex_value(text::lowered(s)) == hex_value(s),
    decreases s.len(),
{
    if s.len() > 0 {
        let front = s.drop_last();
        assert forall|i: int| 0 <= i < front.len() implies text::is_hex_digit(
            #[trigger] front[i],
        ) by {
            assert(front[i] == s[i]);
        }
        lemma_value_in_either_case(front);
        assert(text::lowered(s).drop_last() =~= text::lowered(front));
        assert(text::is_hex_digit(s[s.len() - 1]));
        lemma_digit_in_either_case(s.last());
    }
}

proof fn lemma_digit_in_either_case(c: char)
    ensures
        text::is_hex_digit(text::lower_char(c)) == text::is_hex_digit(c),
        text::is_hex_digit(c) ==> text::hex_digit(text::lower_char(c)) == text::hex_digit(c),
{
}

/// A number above 65535 is no port.
pub proof fn law_ports_have_their_limit(o: Seq<u8>, g: Seq<u16>, n: nat)
    requires
        o.len() == 4,
        g.len() == 8,
        n > 65535,
    ensures
        socket_literal(dotted(o) + ":"@ + text::decimal(n)) is None,
        socket_literal("["@ + v6_text(g) + "]:"@ + text::decimal(n)) is None,
{
    reveal_strlit(":");
    reveal_strlit("[");
    reveal_strlit("]:");
    let digits = text::decimal(n);
    text::law_decimal_reads_back(n, n);
    let d = dotted(o);
    lemma_dotted_chars(o);
    let s = d + ":"@ + digits;
    assert forall|j: int| 0 <= j < d.len() implies s[j] != ':' by {
        assert(s[j] == d[j]);
        assert(text::is_digit(d[j]) || d[j] == '.');
    }
    assert(s[d.len() as int] == ':');
    text::lemma_find_is(s, ':', d.len() as int);
    assert(s.skip(d.len() as int + 1) =~= digits);
    assert(s[0] == d[0]);
    let v = v6_text(g);
    lemma_v6_chars(g);
    let t = "["@ + v + "]:"@ + digits;
    let at = v.len() as int + 1;
    assert(t[0] == '[');
    assert(t[at] == ']' && t[at + 1] == ':');
    assert forall|j: int| 0 <= j < at implies t[j] != ']' by {
        if j > 0 {
            assert(t[j] == v[j - 1]);
            assert(text::is_hex_digit(v[j - 1]) || v[j - 1] == ':' || v[j - 1] == '.');
        }
    }
    text::lemma_find_is(t, ']', at);
    assert(t.skip(at + 2) =~= digits);
    text::lemma_find(t, ':');
    let colon = text::find(t, ':');
    if 0 < colon <= t.len() {
        let before = t.take(colon);
        assert(before[0] == '[');
        lemma_not_dotted(before);
    }
}

/// What is said of a value is said of what it holds: every field and every case stands
/// under its own name, and nothing is left out.
pub proof fn law_views_say_what_the_values_hold(
    ip_addr: IpAddr,
    socket_addr: SocketAddr,
)
    ensures
        match ip_addr {
            IpAddr::V4(o) => ip_addr@ == IpValue::V4(o@),
            IpAddr::V6(g) => ip_addr@ == IpValue::V6(g@),
        },
        socket_addr@.0 == socket_addr.ip@,
        socket_addr@.1 == socket_addr.port,
        socket_addr@.2 == socket_addr.scope_id,
{
}

} // verus!
