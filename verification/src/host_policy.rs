//! The host-binding guard for the API server: loopback hosts are always
//! allowed, any other host only with an API token or an explicit opt-in.
//!
//! A host is loopback when, trimmed and ASCII-lowercased, it is `localhost`,
//! an IPv4 address in `127.0.0.0/8`, or the IPv6 address `::1`, where
//! addresses are read as `str::parse::<IpAddr>` reads them.

use vstd::prelude::*;

use crate::text::{ascii_lower, ascii_lower_char, ascii_lower_seq, chars_of, trim_bounds, trimmed};

verus! {

/// Value of `c` as a digit in `radix` (10 or 16), as `char::to_digit`.
pub open spec fn digit_value(c: char, radix: nat) -> Option<nat> {
    if '0' <= c && c <= '9' {
        Some((c as u32 - '0' as u32) as nat)
    } else if radix == 16 && 'a' <= c && c <= 'f' {
        Some((c as u32 - 'a' as u32 + 10) as nat)
    } else if radix == 16 && 'A' <= c && c <= 'F' {
        Some((c as u32 - 'A' as u32 + 10) as nat)
    } else {
        None
    }
}

/// Reads digits greedily from `pos`, with `count` digits worth `acc` read so
/// far; fails once more than `max_digits` digits are read or the value
/// exceeds `max_value`. Yields the value, the end position and the count.
pub open spec fn read_digits(
    s: Seq<char>,
    pos: int,
    radix: nat,
    max_digits: nat,
    max_value: nat,
    count: nat,
    acc: nat,
) -> Option<(nat, int, nat)>
    decreases s.len() - pos,
{
    if pos < 0 || pos >= s.len() || digit_value(s[pos], radix) is None {
        Some((acc, pos, count))
    } else {
        let v = acc * radix + digit_value(s[pos], radix)->0;
        if v > max_value || count + 1 > max_digits {
            None
        } else {
            read_digits(s, pos + 1, radix, max_digits, max_value, count + 1, v)
        }
    }
}

/// A number of one to `max_digits` digits; a leading zero is refused on a
/// number of several digits unless `allow_zero_prefix`.
pub open spec fn read_number(
    s: Seq<char>,
    pos: int,
    radix: nat,
    max_digits: nat,
    max_value: nat,
    allow_zero_prefix: bool,
) -> Option<(nat, int)> {
    match read_digits(s, pos, radix, max_digits, max_value, 0, 0) {
        None => None,
        Some((v, end, count)) => if count == 0 {
            None
        } else if !allow_zero_prefix && s[pos] == '0' && count > 1 {
            None
        } else {
            Some((v, end))
        },
    }
}

/// An IPv4 octet: decimal, at most three digits, no leading zero, at most 255.
pub open spec fn read_octet(s: Seq<char>, pos: int) -> Option<(nat, int)> {
    read_number(s, pos, 10, 3, 255, false)
}

/// `sep` (unless `first`) followed by an octet.
pub open spec fn read_sep_octet(s: Seq<char>, pos: int, first: bool) -> Option<(nat, int)> {
    if first {
        read_octet(s, pos)
    } else if 0 <= pos < s.len() && s[pos] == '.' {
        read_octet(s, pos + 1)
    } else {
        None
    }
}

/// Four dot-separated octets from `pos`: the octets and the end position.
pub open spec fn read_ipv4(s: Seq<char>, pos: int) -> Option<(Seq<nat>, int)> {
    match read_sep_octet(s, pos, true) {
        None => None,
        Some((a, p1)) => match read_sep_octet(s, p1, false) {
            None => None,
            Some((b, p2)) => match read_sep_octet(s, p2, false) {
                None => None,
                Some((c, p3)) => match read_sep_octet(s, p3, false) {
                    None => None,
                    Some((d, p4)) => Some((seq![a, b, c, d], p4)),
                },
            },
        },
    }
}

/// An IPv6 group: hexadecimal, at most four digits.
pub open spec fn read_hex_group(s: Seq<char>, pos: int) -> Option<(nat, int)> {
    read_number(s, pos, 16, 4, 65535, true)
}

/// Skips the `:` separator before every group but the first.
pub open spec fn after_colon(s: Seq<char>, pos: int, first: bool) -> Option<int> {
    if first {
        Some(pos)
    } else if 0 <= pos < s.len() && s[pos] == ':' {
        Some(pos + 1)
    } else {
        None
    }
}

/// Reads up to `limit - i` more groups from `pos` after the groups `acc`;
/// an embedded IPv4 address may stand in for the last two. Yields the groups,
/// the end position and whether an IPv4 tail was read.
pub open spec fn read_groups(s: Seq<char>, pos: int, i: nat, limit: nat, acc: Seq<nat>) -> (
    Seq<nat>,
    int,
    bool,
)
    decreases limit - i,
{
    if i >= limit {
        (acc, pos, false)
    } else {
        let v4 = if i + 1 < limit {
            match after_colon(s, pos, i == 0) {
                None => None,
                Some(p) => read_ipv4(s, p),
            }
        } else {
            None
        };
        match v4 {
            Some((o, p2)) => (acc + seq![o[0] * 256 + o[1], o[2] * 256 + o[3]], p2, true),
            None => match after_colon(s, pos, i == 0) {
                None => (acc, pos, false),
                Some(p) => match read_hex_group(s, p) {
                    None => (acc, pos, false),
                    Some((g, p2)) => read_groups(s, p2, i + 1, limit, acc.push(g)),
                },
            },
        }
    }
}

/// Eight groups of an IPv6 address, with `::` standing for a run of zeros.
pub open spec fn read_ipv6(s: Seq<char>) -> Option<(Seq<nat>, int)> {
    let (head, p, v4) = read_groups(s, 0, 0, 8, Seq::empty());
    if head.len() == 8 {
        Some((head, p))
    } else if v4 {
        None
    } else if !(0 <= p && p + 1 < s.len() && s[p] == ':' && s[p + 1] == ':') {
        None
    } else {
        let limit = (8 - (head.len() + 1)) as nat;
        let (tail, p2, _) = read_groups(s, p + 2, 0, limit, Seq::empty());
        Some((head + Seq::new((8 - head.len() - tail.len()) as nat, |k: int| 0nat) + tail, p2))
    }
}

/// `s` is an IPv4 address in `127.0.0.0/8`.
pub open spec fn is_ipv4_loopback_text(s: Seq<char>) -> bool {
    match read_ipv4(s, 0) {
        Some((o, end)) => end == s.len() && o[0] == 127,
        None => false,
    }
}

/// `s` is the IPv6 address `::1`.
pub open spec fn is_ipv6_loopback_text(s: Seq<char>) -> bool {
    match read_ipv6(s) {
        Some((g, end)) => end == s.len() && g == seq![0nat, 0, 0, 0, 0, 0, 0, 1],
        None => false,
    }
}

/// `s` parses as an IPv4 address (the whole text).
pub open spec fn is_ipv4_text(s: Seq<char>) -> bool {
    match read_ipv4(s, 0) {
        Some((o, end)) => end == s.len(),
        None => false,
    }
}

/// A host the server may bind without authentication.
pub open spec fn is_loopback_host_text(host: Seq<char>) -> bool {
    let n = ascii_lower_seq(trimmed(host));
    n == "localhost"@ || is_ipv4_loopback_text(n) || (!is_ipv4_text(n) && is_ipv6_loopback_text(n))
}


/// `v` read as natural numbers.
pub open spec fn nats(v: Seq<u32>) -> Seq<nat> {
    v.map_values(|g: u32| g as nat)
}

fn exec_digit_value(c: char, radix: u32) -> (r: Option<u32>)
    requires
        radix == 10 || radix == 16,
    ensures
        match r {
            Some(d) => digit_value(c, radix as nat) == Some(d as nat) && d < radix,
            None => digit_value(c, radix as nat) is None,
        },
{
    if '0' <= c && c <= '9' {
        Some(c as u32 - '0' as u32)
    } else if radix == 16 && 'a' <= c && c <= 'f' {
        Some(c as u32 - 'a' as u32 + 10)
    } else if radix == 16 && 'A' <= c && c <= 'F' {
        Some(c as u32 - 'A' as u32 + 10)
    } else {
        None
    }
}

fn exec_read_digits(s: &Vec<char>, pos: usize, radix: u32, max_digits: u32, max_value: u32) -> (r:
    Option<(u32, usize, u32)>)
    requires
        pos <= s.len(),
        radix == 10 || radix == 16,
        max_value <= 65535,
        max_digits <= 4,
    ensures
        match r {
            Some((v, e, c)) => read_digits(
                s@,
                pos as int,
                radix as nat,
                max_digits as nat,
                max_value as nat,
                0,
                0,
            ) == Some((v as nat, e as int, c as nat)) && pos <= e <= s.len() && c == e - pos,
            None => read_digits(
                s@,
                pos as int,
                radix as nat,
                max_digits as nat,
                max_value as nat,
                0,
                0,
            ) is None,
        },
{
    let mut p = pos;
    let mut count: u32 = 0;
    let mut acc: u32 = 0;
    loop
        invariant
            pos <= p <= s.len(),
            acc <= max_value <= 65535,
            count <= max_digits <= 4,
            count == p - pos,
            radix == 10 || radix == 16,
            read_digits(s@, pos as int, radix as nat, max_digits as nat, max_value as nat, 0, 0)
                == read_digits(
                s@,
                p as int,
                radix as nat,
                max_digits as nat,
                max_value as nat,
                count as nat,
                acc as nat,
            ),
        decreases s.len() - p,
    {
        if p >= s.len() {
            return Some((acc, p, count));
        }
        match exec_digit_value(s[p], radix) {
            None => {
                return Some((acc, p, count));
            },
            Some(d) => {
                let v = acc * radix + d;
                if v > max_value || count + 1 > max_digits {
                    return None;
                }
                acc = v;
                count = count + 1;
                p = p + 1;
            },
        }
    }
}

fn exec_read_number(
    s: &Vec<char>,
    pos: usize,
    radix: u32,
    max_digits: u32,
    max_value: u32,
    allow_zero_prefix: bool,
) -> (r: Option<(u32, usize)>)
    requires
        pos <= s.len(),
        radix == 10 || radix == 16,
        max_value <= 65535,
        max_digits <= 4,
    ensures
        match r {
            Some((v, e)) => read_number(
                s@,
                pos as int,
                radix as nat,
                max_digits as nat,
                max_value as nat,
                allow_zero_prefix,
            ) == Some((v as nat, e as int)) && pos < e <= s.len() && v <= max_value,
            None => read_number(
                s@,
                pos as int,
                radix as nat,
                max_digits as nat,
                max_value as nat,
                allow_zero_prefix,
            ) is None,
        },
{
    match exec_read_digits(s, pos, radix, max_digits, max_value) {
        None => None,
        Some((v, end, count)) => {
            if count == 0 {
                None
            } else if !allow_zero_prefix && s[pos] == '0' && count > 1 {
                None
            } else {
                proof {
                    lemma_read_digits_bound(
                        s@,
                        pos as int,
                        radix as nat,
                        max_digits as nat,
                        max_value as nat,
                        0,
                        0,
                    );
                }
                Some((v, end))
            }
        },
    }
}

proof fn lemma_read_digits_bound(
    s: Seq<char>,
    pos: int,
    radix: nat,
    max_digits: nat,
    max_value: nat,
    count: nat,
    acc: nat,
)
    requires
        acc <= max_value,
    ensures
        read_digits(s, pos, radix, max_digits, max_value, count, acc) matches Some((v, e, c))
            ==> v <= max_value,
    decreases s.len() - pos,
{
    if pos < 0 || pos >= s.len() || digit_value(s[pos], radix) is None {
    } else {
        let v = acc * radix + digit_value(s[pos], radix)->0;
        if v > max_value || count + 1 > max_digits {
        } else {
            lemma_read_digits_bound(s, pos + 1, radix, max_digits, max_value, count + 1, v);
        }
    }
}

fn exec_read_sep_octet(s: &Vec<char>, pos: usize, first: bool) -> (r: Option<(u32, usize)>)
    requires
        pos <= s.len(),
    ensures
        match r {
            Some((v, e)) => read_sep_octet(s@, pos as int, first) == Some((v as nat, e as int))
                && pos < e <= s.len() && v <= 255,
            None => read_sep_octet(s@, pos as int, first) is None,
        },
{
    if first {
        exec_read_number(s, pos, 10, 3, 255, false)
    } else if pos < s.len() && s[pos] == '.' {
        exec_read_number(s, pos + 1, 10, 3, 255, false)
    } else {
        None
    }
}

/// Four octets and the end position, as `read_ipv4`.
fn exec_read_ipv4(s: &Vec<char>, pos: usize) -> (r: Option<(u32, u32, u32, u32, usize)>)
    requires
        pos <= s.len(),
    ensures
        match r {
            Some((a, b, c, d, e)) => read_ipv4(s@, pos as int) == Some(
                (seq![a as nat, b as nat, c as nat, d as nat], e as int),
            ) && pos < e <= s.len() && a <= 255 && b <= 255 && c <= 255 && d <= 255,
            None => read_ipv4(s@, pos as int) is None,
        },
{
    let (a, p1) = match exec_read_sep_octet(s, pos, true) {
        None => return None,
        Some(x) => x,
    };
    let (b, p2) = match exec_read_sep_octet(s, p1, false) {
        None => return None,
        Some(x) => x,
    };
    let (c, p3) = match exec_read_sep_octet(s, p2, false) {
        None => return None,
        Some(x) => x,
    };
    let (d, p4) = match exec_read_sep_octet(s, p3, false) {
        None => return None,
        Some(x) => x,
    };
    Some((a, b, c, d, p4))
}

fn exec_after_colon(s: &Vec<char>, pos: usize, first: bool) -> (r: Option<usize>)
    requires
        pos <= s.len(),
    ensures
        match r {
            Some(p) => after_colon(s@, pos as int, first) == Some(p as int) && pos <= p <= s.len(),
            None => after_colon(s@, pos as int, first) is None,
        },
{
    if first {
        Some(pos)
    } else if pos < s.len() && s[pos] == ':' {
        Some(pos + 1)
    } else {
        None
    }
}

fn exec_read_groups(s: &Vec<char>, pos: usize, i: u32, limit: u32, acc: Vec<u32>) -> (r: (
    Vec<u32>,
    usize,
    bool,
))
    requires
        pos <= s.len(),
        i <= limit <= 8,
        acc.len() == i,
    ensures
        (nats(r.0@), r.1 as int, r.2) == read_groups(
            s@,
            pos as int,
            i as nat,
            limit as nat,
            nats(acc@),
        ),
        r.1 <= s.len(),
        r.0.len() <= limit,
    decreases limit - i,
{
    if i >= limit {
        return (acc, pos, false);
    }
    let v4 = if i + 1 < limit {
        match exec_after_colon(s, pos, i == 0) {
            None => None,
            Some(p) => exec_read_ipv4(s, p),
        }
    } else {
        None
    };
    match v4 {
        Some((o0, o1, o2, o3, p2)) => {
            let mut out = acc;
            let ghost before = nats(out@);
            out.push(o0 * 256 + o1);
            out.push(o2 * 256 + o3);
            assert(nats(out@) =~= before + seq![
                (o0 as nat) * 256 + (o1 as nat),
                (o2 as nat) * 256 + (o3 as nat),
            ]);
            (out, p2, true)
        },
        None => match exec_after_colon(s, pos, i == 0) {
            None => (acc, pos, false),
            Some(p) => match exec_read_number(s, p, 16, 4, 65535, true) {
                None => (acc, pos, false),
                Some((g, p2)) => {
                    let mut next = acc;
                    let ghost before = nats(next@);
                    next.push(g);
                    assert(nats(next@) =~= before.push(g as nat));
                    exec_read_groups(s, p2, i + 1, limit, next)
                },
            },
        },
    }
}

/// Eight groups and the end position, as `read_ipv6`.
fn exec_read_ipv6(s: &Vec<char>) -> (r: Option<(Vec<u32>, usize)>)
    ensures
        match r {
            Some((g, e)) => read_ipv6(s@) == Some((nats(g@), e as int)) && g.len() == 8,
            None => read_ipv6(s@) is None,
        },
{
    let empty: Vec<u32> = Vec::new();
    assert(nats(empty@) =~= Seq::<nat>::empty());
    let (head, p, v4) = exec_read_groups(s, 0, 0, 8, empty);
    if head.len() == 8 {
        return Some((head, p));
    }
    if v4 {
        return None;
    }
    if !(p < s.len() && s[p] == ':' && p + 1 < s.len() && s[p + 1] == ':') {
        return None;
    }
    let limit = 8 - (head.len() + 1);
    let empty2: Vec<u32> = Vec::new();
    assert(nats(empty2@) =~= Seq::<nat>::empty());
    let (tail, p2, _) = exec_read_groups(s, p + 2, 0, limit as u32, empty2);
    let zeros = 8 - head.len() - tail.len();
    let mut g = head;
    let ghost head_view = nats(g@);
    let mut k: usize = 0;
    while k < zeros
        invariant
            k <= zeros,
            zeros + head_view.len() + tail.len() == 8,
            g.len() == head_view.len() + k,
            nats(g@) =~= head_view + Seq::new(k as nat, |j: int| 0nat),
        decreases zeros - k,
    {
        let ghost before = nats(g@);
        g.push(0);
        assert(nats(g@) =~= before.push(0nat));
        k = k + 1;
        assert(nats(g@) =~= head_view + Seq::new(k as nat, |j: int| 0nat));
    }
    let ghost mid = nats(g@);
    let mut t: usize = 0;
    while t < tail.len()
        invariant
            t <= tail.len(),
            g.len() == mid.len() + t,
            mid.len() + tail.len() == 8,
            nats(g@) =~= mid + nats(tail@).take(t as int),
        decreases tail.len() - t,
    {
        let ghost before = nats(g@);
        g.push(tail[t]);
        assert(nats(g@) =~= before.push(tail@[t as int] as nat));
        t = t + 1;
        assert(nats(g@) =~= mid + nats(tail@).take(t as int));
    }
    assert(nats(tail@).take(tail.len() as int) =~= nats(tail@));
    Some((g, p2))
}

/// `true` when `host` is a loopback host: trimmed and ASCII-lowercased, it is
/// `localhost`, an IPv4 address in `127.0.0.0/8`, or the IPv6 address `::1`.
pub fn is_loopback_host(host: &str) -> (r: bool)
    ensures
        r == is_loopback_host_text(host@),
{
    let v = chars_of(host);
    let (a, b) = trim_bounds(&v);
    let mut n: Vec<char> = Vec::new();
    let mut i = a;
    while i < b
        invariant
            a <= i <= b <= v.len(),
            v@ == host@,
            v@.subrange(a as int, b as int) == trimmed(host@),
            n@ == ascii_lower_seq(v@.subrange(a as int, i as int)),
        decreases b - i,
    {
        n.push(ascii_lower_char(v[i]));
        i = i + 1;
        assert(n@ =~= ascii_lower_seq(v@.subrange(a as int, i as int)));
    }
    if is_localhost(&n) {
        return true;
    }
    match exec_read_ipv4(&n, 0) {
        Some((o0, _, _, _, e)) => {
            if e == n.len() {
                return o0 == 127;
            }
        },
        None => {},
    }
    match exec_read_ipv6(&n) {
        Some((g, e)) => {
            if e != n.len() {
                return false;
            }
            let one = g[0] == 0 && g[1] == 0 && g[2] == 0 && g[3] == 0 && g[4] == 0 && g[5] == 0
                && g[6] == 0 && g[7] == 1;
            proof {
                if one {
                    assert(nats(g@) =~= seq![0nat, 0, 0, 0, 0, 0, 0, 1]);
                } else {
                    if nats(g@) == seq![0nat, 0, 0, 0, 0, 0, 0, 1] {
                        assert(nats(g@)[0] == 0 && nats(g@)[7] == 1);
                        assert(nats(g@)[1] == 0 && nats(g@)[2] == 0 && nats(g@)[3] == 0);
                        assert(nats(g@)[4] == 0 && nats(g@)[5] == 0 && nats(g@)[6] == 0);
                    }
                }
            }
            one
        },
        None => false,
    }
}

fn is_localhost(n: &Vec<char>) -> (r: bool)
    ensures
        r == (n@ == "localhost"@),
{
    let lit = chars_of("localhost");
    proof {
        reveal_strlit("localhost");
    }
    if n.len() != lit.len() {
        return false;
    }
    let mut i: usize = 0;
    while i < n.len()
        invariant
            i <= n.len() == lit.len(),
            lit@ == "localhost"@,
            n@.subrange(0, i as int) == lit@.subrange(0, i as int),
        decreases n.len() - i,
    {
        if n[i] != lit[i] {
            assert(n@[i as int] != lit@[i as int]);
            return false;
        }
        i = i + 1;
        assert(n@.subrange(0, i as int) =~= lit@.subrange(0, i as int));
    }
    assert(n@ =~= n@.subrange(0, n.len() as int));
    assert(lit@ =~= lit@.subrange(0, lit.len() as int));
    true
}


/// The host policy refused to bind `host`.
#[derive(Clone, Debug)]
pub struct HostPolicyError {
    pub host: String,
}

/// The message of a refused bind for `host`.
pub open spec fn host_policy_message(host: Seq<char>) -> Seq<char> {
    "refusing to bind --host '"@ + host
        + "' without authentication: set OSM_WORLD_API_TOKEN or pass --allow-remote-host"@
}

impl HostPolicyError {
    /// The error message.
    pub fn message(&self) -> (r: String)
        ensures
            r@ == host_policy_message(self.host@),
    {
        let mut r = String::from_str("refusing to bind --host '");
        r.append(self.host.as_str());
        r.append("' without authentication: set OSM_WORLD_API_TOKEN or pass --allow-remote-host");
        r
    }
}

/// The binding guard: a loopback host is always allowed; any other host only
/// when `allow_remote` (the operator's explicit opt-in) or `has_token` (an API
/// token is configured).
pub fn enforce_host_policy_decision(host: &str, allow_remote: bool, has_token: bool) -> (r: Result<
    (),
    HostPolicyError,
>)
    ensures
        r is Ok <==> (is_loopback_host_text(host@) || allow_remote || has_token),
        r matches Err(e) ==> e.host@ == host@,
{
    if is_loopback_host(host) {
        return Ok(());
    }
    if allow_remote || has_token {
        return Ok(());
    }
    Err(HostPolicyError { host: host.to_string() })
}

/// `--spawn-lat` and `--spawn-lon` were not given together.
#[derive(Clone, Copy, Debug, PartialEq, Eq, Structural)]
pub struct SpawnPairError;

impl SpawnPairError {
    /// The error message.
    pub fn message(&self) -> (r: String)
        ensures
            r@ == "--spawn-lat and --spawn-lon must be provided together"@,
    {
        String::from_str("--spawn-lat and --spawn-lon must be provided together")
    }
}

/// The spawn coordinates must be given both or neither.
pub fn validate_spawn_pair(has_spawn_lat: bool, has_spawn_lon: bool) -> (r: Result<(), SpawnPairError>)
    ensures
        r is Ok <==> has_spawn_lat == has_spawn_lon,
{
    if has_spawn_lat != has_spawn_lon {
        Err(SpawnPairError)
    } else {
        Ok(())
    }
}

} // verus!
