//! What the library reads from, and hands to, the `tailscale` CLI: the
//! `file cp --targets` listing, the peers of `status --json`, the arguments
//! of each invocation, the messages of a failed one, and when a cached answer
//! may be served.
use vstd::prelude::*;
use vstd::multiset::Multiset;
use crate::models::{CpTarget, Peer, TailnetStatus, ConflictPolicy, conflict_flag};
use crate::error::TaildropError;
use crate::text::{str_eq, trimmed, 
    chars_of, push_decimal, push_str, starts_with, string_of_range, trim, trim_end_bound,
    trim_start, trim_start_bound, decimal,
};

verus! {

// --- `tailscale file cp --targets` ------------------------------------------

/// The first position in `[pos, hi)` of `s` holding `c`, or `hi`.
pub open spec fn next_of(s: Seq<char>, pos: int, hi: int, c: char) -> int
    decreases hi - pos,
{
    if pos >= hi {
        hi
    } else if s[pos] == c {
        pos
    } else {
        next_of(s, pos + 1, hi, c)
    }
}

pub proof fn lemma_next_of_bounds(s: Seq<char>, pos: int, hi: int, c: char)
    requires
        pos <= hi,
    ensures
        pos <= next_of(s, pos, hi, c) <= hi,
    decreases hi - pos,
{
    if pos < hi && s[pos] != c {
        lemma_next_of_bounds(s, pos + 1, hi, c);
    }
}

/// Where the text of the line starting at `pos` ends: before its newline,
/// and before a carriage return that precedes that newline.
pub open spec fn line_end(s: Seq<char>, pos: int) -> int {
    let e = next_of(s, pos, s.len() as int, '\n');
    if e < s.len() && e > pos && s[e - 1] == '\r' {
        e - 1
    } else {
        e
    }
}

/// The target that the line `s[lo..hi]` describes: its first tab-separated
/// field is the address, the second the name, and the third says whether the
/// device is offline. A line without both an address and a name describes
/// none.
pub open spec fn target_in(s: Seq<char>, lo: int, hi: int) -> Option<(Seq<char>, Seq<char>, bool)> {
    let t1 = next_of(s, lo, hi, '\t');
    let t2 = next_of(s, t1 + 1, hi, '\t');
    let ip = trim(s.subrange(lo, t1));
    let name = if t1 < hi { trim(s.subrange(t1 + 1, t2)) } else { Seq::empty() };
    let rest = if t1 < hi && t2 < hi { trim_start(s.subrange(t2 + 1, hi)) } else { Seq::empty() };
    if ip.len() == 0 || name.len() == 0 {
        None
    } else {
        Some((ip, name, "offline"@.is_prefix_of(rest)))
    }
}

/// The targets described by the lines of `s` from position `pos` on.
pub open spec fn targets_from(s: Seq<char>, pos: int) -> Seq<(Seq<char>, Seq<char>, bool)>
    decreases s.len() - pos,
{
    if pos < 0 || pos >= s.len() {
        Seq::empty()
    } else {
        let e = next_of(s, pos, s.len() as int, '\n');
        let tail = if pos <= e < s.len() { targets_from(s, e + 1) } else { Seq::empty() };
        match target_in(s, pos, line_end(s, pos)) {
            Some(t) => seq![t] + tail,
            None => tail,
        }
    }
}

/// What a target says, as plain values.
pub open spec fn target_view(t: CpTarget) -> (Seq<char>, Seq<char>, bool) {
    (t.ip@, t.name@, t.offline)
}

fn next_index(v: &Vec<char>, pos: usize, hi: usize, c: char) -> (r: usize)
    requires
        pos <= hi <= v@.len(),
    ensures
        r == next_of(v@, pos as int, hi as int, c),
        pos <= r <= hi,
{
    let mut i = pos;
    while i < hi && v[i] != c
        invariant
            pos <= i <= hi <= v@.len(),
            next_of(v@, pos as int, hi as int, c) == next_of(v@, i as int, hi as int, c),
        decreases hi - i,
    {
        i += 1;
    }
    i
}

fn target_at(v: &Vec<char>, lo: usize, hi: usize) -> (r: Option<CpTarget>)
    requires
        lo <= hi <= v@.len(),
    ensures
        match r {
            Some(t) => target_in(v@, lo as int, hi as int) == Some(target_view(t)),
            None => target_in(v@, lo as int, hi as int) is None,
        },
{
    let t1 = next_index(v, lo, hi, '\t');
    let a = trim_start_bound(v, lo, t1);
    let b = trim_end_bound(v, a, t1);
    assert(v@.subrange(a as int, b as int) == trim(v@.subrange(lo as int, t1 as int)));
    let ip = string_of_range(v, a, b);
    let (name, t2) = if t1 < hi {
        let t2 = next_index(v, t1 + 1, hi, '\t');
        let c = trim_start_bound(v, t1 + 1, t2);
        let d = trim_end_bound(v, c, t2);
        (string_of_range(v, c, d), t2)
    } else {
        (String::new(), hi)
    };
    if ip.unicode_len() == 0 || name.unicode_len() == 0 {
        return None;
    }
    let offline = if t1 < hi && t2 < hi {
        let e = trim_start_bound(v, t2 + 1, hi);
        proof {
            reveal_strlit("offline");
        }
        starts_with(v, e, hi, "offline")
    } else {
        proof {
            reveal_strlit("offline");
        }
        false
    };
    Some(CpTarget { ip, name, offline })
}

/// The valid `file cp` targets that `tailscale file cp --targets` lists in
/// `out`, one per line, in order.
pub fn parse_cp_targets(out: &str) -> (r: Vec<CpTarget>)
    ensures
        r@.map_values(|t: CpTarget| target_view(t)) == targets_from(out@, 0),
{
    let v = chars_of(out);
    let mut targets: Vec<CpTarget> = Vec::new();
    let mut pos: usize = 0;
    while pos < v.len()
        invariant
            pos <= v@.len(),
            v@ == out@,
            targets@.map_values(|t: CpTarget| target_view(t)) + targets_from(v@, pos as int)
                == targets_from(v@, 0),
        decreases v@.len() - pos,
    {
        let e = next_index(&v, pos, v.len(), '\n');
        let le = if e < v.len() && e > pos && v[e - 1] == '\r' { e - 1 } else { e };
        assert(le == line_end(v@, pos as int));
        let ghost before = targets@;
        match target_at(&v, pos, le) {
            Some(t) => {
                targets.push(t);
                assert(targets@.map_values(|t: CpTarget| target_view(t)) == before.map_values(
                    |t: CpTarget| target_view(t),
                ) + seq![target_view(t)]);
            },
            None => {},
        }
        if e < v.len() {
            pos = e + 1;
        } else {
            pos = v.len();
        }
    }
    targets
}

// --- `tailscale status --json` ---------------------------------------------

/// A peer as `tailscale status --json` reports it.
#[derive(Debug)]
pub struct RawPeer {
    pub id: String,
    pub host_name: String,
    pub dns_name: String,
    pub os: String,
    pub tailscale_ips: Vec<String>,
    pub online: bool,
    pub last_seen: Option<String>,
    pub rx_bytes: u64,
    pub tx_bytes: u64,
}

/// `s` without its trailing dots.
pub open spec fn strip_trailing_dots(s: Seq<char>) -> Seq<char>
    decreases s.len(),
{
    if s.len() > 0 && s.last() == '.' {
        strip_trailing_dots(s.drop_last())
    } else {
        s
    }
}

/// The first dot-separated label of `s`.
pub open spec fn first_label(s: Seq<char>) -> Seq<char> {
    s.take(next_of(s, 0, s.len() as int, '.'))
}

/// The short name shown for a device: the first label of its DNS name, or
/// its host name when that label is empty.
pub open spec fn peer_alias(dns_name: Seq<char>, host_name: Seq<char>) -> Seq<char> {
    let label = first_label(strip_trailing_dots(dns_name));
    if label.len() > 0 {
        label
    } else {
        host_name
    }
}

/// The peer that `raw` describes.
pub open spec fn is_peer_of(p: Peer, raw: RawPeer, is_self: bool) -> bool {
    &&& p.id == raw.id
    &&& p.hostname == raw.host_name
    &&& p.dns_name@ == strip_trailing_dots(raw.dns_name@)
    &&& p.alias@ == peer_alias(raw.dns_name@, raw.host_name@)
    &&& p.os == raw.os
    &&& p.tailscale_ips == raw.tailscale_ips
    &&& p.online == raw.online
    &&& p.last_seen == raw.last_seen
    &&& p.is_self == is_self
    &&& p.rx_bytes == raw.rx_bytes
    &&& p.tx_bytes == raw.tx_bytes
}

impl RawPeer {
    pub fn into_peer(self, is_self: bool) -> (p: Peer)
        ensures
            is_peer_of(p, self, is_self),
    {
        let v = chars_of(self.dns_name.as_str());
        let mut n: usize = v.len();
        assert(v@.take(n as int) == v@);
        while n > 0 && v[n - 1] == '.'
            invariant
                n <= v@.len(),
                strip_trailing_dots(v@.take(n as int)) == strip_trailing_dots(v@),
            decreases n,
        {
            assert(v@.take(n - 1) == v@.take(n as int).drop_last());
            n -= 1;
        }
        let ghost stripped = v@.take(n as int);
        assert(stripped == v@.subrange(0, n as int));
        let dns_name = string_of_range(&v, 0, n);
        let dot = next_index(&v, 0, n, '.');
        proof {
            lemma_next_of_range(v@, n as int, 0, '.');
        }
        let alias = if dot > 0 {
            assert(stripped.take(dot as int) == v@.subrange(0, dot as int));
            string_of_range(&v, 0, dot)
        } else {
            self.host_name.clone()
        };
        Peer {
            id: self.id,
            hostname: self.host_name,
            alias,
            dns_name,
            os: self.os,
            tailscale_ips: self.tailscale_ips,
            online: self.online,
            last_seen: self.last_seen,
            is_self,
            rx_bytes: self.rx_bytes,
            tx_bytes: self.tx_bytes,
        }
    }
}

/// Searching a prefix of `s` is searching `s` up to the prefix's end.
proof fn lemma_next_of_range(s: Seq<char>, n: int, pos: int, c: char)
    requires
        0 <= pos <= n <= s.len(),
    ensures
        next_of(s.take(n), pos, n, c) == next_of(s, pos, n, c),
    decreases n - pos,
{
    if pos < n {
        lemma_next_of_range(s, n, pos + 1, c);
    }
}

/// `s` in lower case, as `str::to_lowercase` gives it.
pub uninterp spec fn spec_to_lowercase(s: Seq<char>) -> Seq<char>;

/// Lower-cases a string.
/// Trusted: calls `str::to_lowercase`, whose result is a function of the
/// text alone (Unicode's case mapping), named `spec_to_lowercase`.
#[verifier::external_body]
fn to_lowercase(s: &str) -> (r: String)
    ensures
        r@ == spec_to_lowercase(s@),
{
    s.to_lowercase()
}

/// `a` comes no later than `b` in the order of `String`'s comparison:
/// character by character, by code point (the order of the UTF-8 bytes).
pub open spec fn text_le(a: Seq<char>, b: Seq<char>) -> bool
    decreases a.len(),
{
    if a.len() == 0 {
        true
    } else if b.len() == 0 {
        false
    } else if a[0] < b[0] {
        true
    } else if a[0] == b[0] {
        text_le(a.drop_first(), b.drop_first())
    } else {
        false
    }
}

pub proof fn lemma_text_le_total(a: Seq<char>, b: Seq<char>)
    ensures
        text_le(a, b) || text_le(b, a),
    decreases a.len(),
{
    if a.len() > 0 && b.len() > 0 && a[0] == b[0] {
        lemma_text_le_total(a.drop_first(), b.drop_first());
    }
    if a.len() > 0 && b.len() > 0 && a[0] != b[0] {
    }
}

pub proof fn lemma_text_le_transitive(a: Seq<char>, b: Seq<char>, c: Seq<char>)
    requires
        text_le(a, b),
        text_le(b, c),
    ensures
        text_le(a, c),
    decreases a.len(),
{
    if a.len() > 0 && b.len() > 0 && c.len() > 0 && a[0] == b[0] && b[0] == c[0] {
        lemma_text_le_transitive(a.drop_first(), b.drop_first(), c.drop_first());
    }
}

fn text_le_exec(a: &Vec<char>, b: &Vec<char>) -> (r: bool)
    ensures
        r == text_le(a@, b@),
{
    let mut i: usize = 0;
    assert(a@.skip(0) == a@);
    assert(b@.skip(0) == b@);
    while i < a.len() && i < b.len() && a[i] == b[i]
        invariant
            i <= a@.len(),
            i <= b@.len(),
            text_le(a@, b@) == text_le(a@.skip(i as int), b@.skip(i as int)),
        decreases a@.len() - i,
    {
        assert(a@.skip(i as int).drop_first() == a@.skip(i + 1));
        assert(b@.skip(i as int).drop_first() == b@.skip(i + 1));
        i += 1;
    }
    if i == a.len() {
        true
    } else if i == b.len() {
        false
    } else {
        assert(a@.skip(i as int)[0] == a@[i as int]);
        assert(b@.skip(i as int)[0] == b@[i as int]);
        a[i] < b[i]
    }
}

/// The key by which peers are listed: the host name in lower case.
pub open spec fn peer_key(p: Peer) -> Seq<char> {
    spec_to_lowercase(p.hostname@)
}

/// `s` is ordered by host name, ignoring case.
pub open spec fn sorted_by_name(s: Seq<Peer>) -> bool {
    forall|i: int, j: int| 0 <= i < j < s.len() ==> text_le(peer_key(s[i]), peer_key(s[j]))
}

/// The peers of `s` whose key is `k`, in their order in `s`.
pub open spec fn peers_keyed(s: Seq<Peer>, k: Seq<char>) -> Seq<Peer>
    decreases s.len(),
{
    if s.len() == 0 {
        Seq::empty()
    } else if peer_key(s.last()) == k {
        peers_keyed(s.drop_last(), k).push(s.last())
    } else {
        peers_keyed(s.drop_last(), k)
    }
}

proof fn lemma_peers_keyed_concat(a: Seq<Peer>, b: Seq<Peer>, k: Seq<char>)
    ensures
        peers_keyed(a + b, k) == peers_keyed(a, k) + peers_keyed(b, k),
    decreases b.len(),
{
    if b.len() == 0 {
        assert(a + b == a);
        assert(peers_keyed(a, k) + peers_keyed(b, k) == peers_keyed(a, k));
    } else {
        lemma_peers_keyed_concat(a, b.drop_last(), k);
        assert((a + b).drop_last() == a + b.drop_last());
        assert((a + b).last() == b.last());
    }
}

proof fn lemma_peers_keyed_none(s: Seq<Peer>, k: Seq<char>)
    requires
        forall|j: int| 0 <= j < s.len() ==> peer_key(#[trigger] s[j]) != k,
    ensures
        peers_keyed(s, k) == Seq::<Peer>::empty(),
    decreases s.len(),
{
    if s.len() > 0 {
        assert(peer_key(s[s.len() - 1]) != k);
        lemma_peers_keyed_none(s.drop_last(), k);
    }
}

proof fn lemma_peers_keyed_one(p: Peer, k: Seq<char>)
    ensures
        peers_keyed(seq![p], k) == (if peer_key(p) == k { seq![p] } else { Seq::<Peer>::empty() }),
{
    assert(seq![p].drop_last() == Seq::<Peer>::empty());
    assert(seq![p].last() == p);
    assert(peers_keyed(Seq::<Peer>::empty(), k) == Seq::<Peer>::empty());
    assert(Seq::<Peer>::empty().push(p) == seq![p]);
}

/// `peers` ordered by host name, ignoring case; peers whose names are the
/// same ignoring case keep their order, as in a stable sort.
pub fn sort_peers(peers: Vec<Peer>) -> (r: Vec<Peer>)
    ensures
        sorted_by_name(r@),
        r@.to_multiset() == peers@.to_multiset(),
        forall|k: Seq<char>| #[trigger] peers_keyed(r@, k) == peers_keyed(peers@, k),
{
    broadcast use vstd::seq_lib::group_to_multiset_ensures, vstd::seq_lib::to_multiset_insert;
    broadcast use vstd::multiset::group_multiset_axioms;

    let ghost orig = peers@;
    let mut rest = peers;
    let mut sorted: Vec<Peer> = Vec::new();
    let mut keys: Vec<Vec<char>> = Vec::new();
    assert(sorted@.to_multiset().len() == 0);
    assert(sorted@.to_multiset() =~= Multiset::empty());
    assert(orig.skip(orig.len() as int) == Seq::<Peer>::empty());
    while rest.len() > 0
        invariant
            keys@.len() == sorted@.len(),
            forall|j: int| 0 <= j < keys@.len() ==> #[trigger] keys@[j]@ == peer_key(sorted@[j]),
            sorted_by_name(sorted@),
            sorted@.to_multiset().add(rest@.to_multiset()) == orig.to_multiset(),
            rest@ == orig.take(rest@.len() as int),
            rest@.len() <= orig.len(),
            forall|k: Seq<char>| #[trigger] peers_keyed(sorted@, k) == peers_keyed(orig.skip(rest@.len() as int), k),
        decreases rest@.len(),
    {
        let ghost before = rest@;
        let p = rest.pop().unwrap();
        assert(before == rest@.push(p));
        assert(rest@ == orig.take(rest@.len() as int));
        assert(orig.skip(rest@.len() as int) == seq![p] + orig.skip(before.len() as int));
        let key = chars_of(to_lowercase(p.hostname.as_str()).as_str());
        let mut i: usize = 0;
        while i < keys.len() && !text_le_exec(&key, &keys[i])
            invariant
                i <= keys@.len(),
                keys@.len() == sorted@.len(),
                forall|j: int| 0 <= j < i ==> !text_le(key@, #[trigger] keys@[j]@),
            decreases keys@.len() - i,
        {
            i += 1;
        }
        proof {
            lemma_text_le_total(key@, key@);
            assert forall|j: int| 0 <= j < i implies text_le(#[trigger] peer_key(sorted@[j]), key@) && peer_key(sorted@[j])
                != key@ by {
                assert(keys@[j]@ == peer_key(sorted@[j]));
                lemma_text_le_total(key@, keys@[j]@);
            }
            assert forall|j: int| i <= j < keys@.len() implies text_le(key@, #[trigger] peer_key(sorted@[j])) by {
                assert(keys@[i as int]@ == peer_key(sorted@[i as int]));
                if j > i {
                    lemma_text_le_transitive(key@, peer_key(sorted@[i as int]), peer_key(sorted@[j]));
                }
            }
        }
        let ghost old_sorted = sorted@;
        let ghost old_keys = keys@;
        sorted.insert(i, p);
        keys.insert(i, key);
        proof {
            vstd::seq_lib::to_multiset_insert(old_sorted, i as int, p);
            vstd::seq_lib::to_multiset_build(rest@, p);
            assert(sorted@.to_multiset() == old_sorted.to_multiset().insert(p));
            assert(before.to_multiset() =~= rest@.to_multiset().insert(p));
            assert(sorted@.to_multiset().add(rest@.to_multiset()) =~= old_sorted.to_multiset().add(
                before.to_multiset(),
            ));
            assert forall|a: int, b: int| 0 <= a < b < sorted@.len() implies text_le(
                peer_key(sorted@[a]),
                peer_key(sorted@[b]),
            ) by {
                if a < i && b == i {
                    assert(sorted@[a] == old_sorted[a]);
                } else if a < i && b > i {
                    assert(sorted@[a] == old_sorted[a]);
                    assert(sorted@[b] == old_sorted[b - 1]);
                    lemma_text_le_transitive(peer_key(old_sorted[a]), key@, peer_key(old_sorted[b - 1]));
                } else if a == i {
                    assert(sorted@[b] == old_sorted[b - 1]);
                } else if a > i {
                    assert(sorted@[a] == old_sorted[a - 1]);
                    assert(sorted@[b] == old_sorted[b - 1]);
                } else {
                    assert(sorted@[a] == old_sorted[a]);
                    assert(sorted@[b] == old_sorted[b]);
                }
            }
            assert forall|j: int| 0 <= j < keys@.len() implies #[trigger] keys@[j]@ == peer_key(sorted@[j]) by {
                if j < i {
                } else if j == i {
                } else {
                    assert(keys@[j] == old_keys[j - 1]);
                }
            }
            let front = old_sorted.take(i as int);
            let back = old_sorted.skip(i as int);
            assert(old_sorted == front + back);
            assert(sorted@ == front + seq![p] + back);
            assert forall|k: Seq<char>| #[trigger] peers_keyed(sorted@, k) == peers_keyed(
                orig.skip(rest@.len() as int),
                k,
            ) by {
                lemma_peers_keyed_concat(front, back, k);
                lemma_peers_keyed_concat(front + seq![p], back, k);
                lemma_peers_keyed_concat(front, seq![p], k);
                lemma_peers_keyed_concat(seq![p], orig.skip(before.len() as int), k);
                lemma_peers_keyed_one(p, k);
                if peer_key(p) == k {
                    assert forall|j: int| 0 <= j < front.len() implies peer_key(#[trigger] front[j]) != k by {
                        assert(front[j] == old_sorted[j]);
                    }
                    lemma_peers_keyed_none(front, k);
                    assert(peers_keyed(front, k) + seq![p] + peers_keyed(back, k) == seq![p] + (peers_keyed(front, k)
                        + peers_keyed(back, k)));
                } else {
                    assert(peers_keyed(front, k) + Seq::<Peer>::empty() == peers_keyed(front, k));
                    assert(Seq::<Peer>::empty() + peers_keyed(orig.skip(before.len() as int), k) == peers_keyed(
                        orig.skip(before.len() as int),
                        k,
                    ));
                }
            }
        }
    }
    assert(rest@.to_multiset().len() == 0);
    assert(rest@.to_multiset() =~= Multiset::empty());
    assert(orig.skip(0) == orig);
    sorted
}

/// Full tailnet status from what `tailscale status --json` reports: this
/// device, and every other peer ordered by host name, ignoring case, peers
/// with the same name keeping the order they were given in.
pub fn tailnet_status(self_peer: RawPeer, peers: Vec<RawPeer>) -> (r: TailnetStatus)
    ensures
        is_peer_of(r.self_peer, self_peer, true),
        sorted_by_name(r.peers@),
        exists|converted: Seq<Peer>|
            {
                &&& converted.len() == peers@.len()
                &&& forall|k: int| 0 <= k < peers@.len() ==> is_peer_of(#[trigger] converted[k], peers@[k], false)
                &&& r.peers@.to_multiset() == #[trigger] converted.to_multiset()
                &&& forall|k: Seq<char>| #[trigger] peers_keyed(r.peers@, k) == peers_keyed(converted, k)
            },
{
    let ghost orig = peers@;
    let mut rest = peers;
    let mut converted: Vec<Peer> = Vec::new();
    while rest.len() > 0
        invariant
            converted@.len() + rest@.len() == orig.len(),
            rest@ == orig.skip(converted@.len() as int),
            forall|k: int| 0 <= k < converted@.len() ==> is_peer_of(#[trigger] converted@[k], orig[k], false),
        decreases rest@.len(),
    {
        let ghost k: int = converted@.len() as int;
        let raw = rest.remove(0);
        assert(raw == orig[k]);
        assert(rest@ == orig.skip(k + 1));
        converted.push(raw.into_peer(false));
    }
    let ghost conv = converted@;
    assert(orig.skip(converted@.len() as int).len() == 0);
    let sorted = sort_peers(converted);
    assert(sorted@.to_multiset() == conv.to_multiset());
    TailnetStatus { self_peer: self_peer.into_peer(true), peers: sorted }
}

// --- invocations ------------------------------------------------------------

/// `parts` joined with single spaces between them.
pub open spec fn join_spaced(parts: Seq<String>) -> Seq<char>
    decreases parts.len(),
{
    if parts.len() == 0 {
        Seq::empty()
    } else if parts.len() == 1 {
        parts[0]@
    } else {
        join_spaced(parts.drop_last()) + " "@ + parts.last()@
    }
}

/// `args` as the command line shows them, after `tailscale`.
pub fn join_args(args: &Vec<String>) -> (r: String)
    ensures
        r@ == join_spaced(args@),
{
    let mut r = String::new();
    let mut i: usize = 0;
    while i < args.len()
        invariant
            i <= args@.len(),
            r@ == join_spaced(args@.take(i as int)),
        decreases args@.len() - i,
    {
        assert(args@.take(i + 1).drop_last() == args@.take(i as int));
        assert(args@.take(i + 1).last() == args@[i as int]);
        if i > 0 {
            let ghost before = r@;
            push_str(&mut r, " ");
            push_str(&mut r, args[i].as_str());
            assert(r@ == before + " "@ + args@[i as int]@);
        } else {
            push_str(&mut r, args[i].as_str());
        }
        i += 1;
    }
    assert(args@.take(args@.len() as int) == args@);
    r
}

/// The arguments of `tailscale file cp` that send `file` to `target`, under
/// the name `rename_to` when one is given.
pub fn send_file_args(target: &str, file: &str, rename_to: Option<&str>) -> (r: Vec<String>)
    ensures
        r@.map_values(|a: String| a@) == (match rename_to {
            Some(name) => seq!["file"@, "cp"@, "--name"@, name@, file@, target@ + ":"@],
            None => seq!["file"@, "cp"@, file@, target@ + ":"@],
        }),
{
    let mut target_arg = String::new();
    push_str(&mut target_arg, target);
    push_str(&mut target_arg, ":");
    let mut r: Vec<String> = Vec::new();
    r.push("file".to_string());
    r.push("cp".to_string());
    match rename_to {
        Some(name) => {
            r.push("--name".to_string());
            r.push(name.to_string());
        },
        None => {},
    }
    r.push(file.to_string());
    r.push(target_arg);
    assert(r@.map_values(|a: String| a@) =~= (match rename_to {
        Some(name) => seq!["file"@, "cp"@, "--name"@, name@, file@, target@ + ":"@],
        None => seq!["file"@, "cp"@, file@, target@ + ":"@],
    }));
    r
}

/// The `--conflict=` argument for `policy`.
pub fn conflict_arg(policy: ConflictPolicy) -> (r: String)
    ensures
        r@ == "--conflict="@ + conflict_flag(policy),
{
    let mut r = String::new();
    push_str(&mut r, "--conflict=");
    push_str(&mut r, policy.as_flag());
    r
}

/// The arguments of `tailscale file get` that drain the inbox into `dest`;
/// with `keep_running`, the long-lived form that keeps draining.
pub fn file_get_args(dest: &str, conflict: ConflictPolicy, keep_running: bool) -> (r: Vec<String>)
    ensures
        r@.map_values(|a: String| a@) == if keep_running {
            seq!["file"@, "get"@, "--loop"@, "--conflict="@ + conflict_flag(conflict), dest@]
        } else {
            seq!["file"@, "get"@, "--conflict="@ + conflict_flag(conflict), dest@]
        },
{
    let mut r: Vec<String> = Vec::new();
    r.push("file".to_string());
    r.push("get".to_string());
    if keep_running {
        r.push("--loop".to_string());
    }
    r.push(conflict_arg(conflict));
    r.push(dest.to_string());
    assert(r@.map_values(|a: String| a@) =~= if keep_running {
        seq!["file"@, "get"@, "--loop"@, "--conflict="@ + conflict_flag(conflict), dest@]
    } else {
        seq!["file"@, "get"@, "--conflict="@ + conflict_flag(conflict), dest@]
    });
    r
}

/// What a finished `tailscale` invocation gives: its output when it
/// succeeded, else a `Command` error with its trimmed error output or, when
/// that is empty, a line saying how it exited.
pub fn invocation_result(args: &Vec<String>, success: bool, stdout: String, stderr: &str, exit_status: &str) -> (r: Result<String, TaildropError>)
    ensures
        success ==> r == Ok::<String, TaildropError>(stdout),
        !success ==> (r matches Err(TaildropError::Command(m)) && m@ == (if trim(stderr@).len() == 0 {
            "`tailscale "@ + join_spaced(args@) + "` exited with "@ + exit_status@
        } else {
            trim(stderr@)
        })),
{
    if success {
        return Ok(stdout);
    }
    let t = trimmed(stderr);
    if t.unicode_len() == 0 {
        let mut m = String::new();
        push_str(&mut m, "`tailscale ");
        let j = join_args(args);
        push_str(&mut m, j.as_str());
        push_str(&mut m, "` exited with ");
        push_str(&mut m, exit_status);
        Err(TaildropError::Command(m))
    } else {
        Err(TaildropError::Command(t))
    }
}

/// The error for an invocation that was killed after `secs` seconds.
pub fn timeout_error(args: &Vec<String>, secs: u64) -> (r: TaildropError)
    ensures
        r matches TaildropError::Timeout(m) && m@ == "`tailscale "@ + join_spaced(args@) + "` timed out after "@
            + decimal(secs as nat) + "s \u{2014} the device may be offline"@,
{
    let mut m = String::new();
    push_str(&mut m, "`tailscale ");
    let j = join_args(args);
    push_str(&mut m, j.as_str());
    push_str(&mut m, "` timed out after ");
    push_decimal(&mut m, secs);
    push_str(&mut m, "s \u{2014} the device may be offline");
    TaildropError::Timeout(m)
}

/// How long to wait on a single `tailscale file cp` before giving up and
/// reporting the target unreachable: `tailscale file cp` itself has no bound
/// when the peer is offline or unreachable.
pub const SEND_TIMEOUT_SECS: u64 = 25;

// --- query cache -------------------------------------------------------------

/// How long a cached `status` / `file cp --targets` answer is served as is.
pub const CACHE_TTL_MS: u64 = 20_000;

/// Past this age a cached answer is not served at all: a `tailscale` that
/// has started failing must surface its error rather than an old list.
pub const MAX_STALE_MS: u64 = 300_000;

/// What to do with a request for a cached answer.
#[derive(Debug, Clone, Copy, PartialEq, Eq, Structural)]
pub enum CacheAction {
    /// Answer from the cache.
    Serve,
    /// Answer from the cache, and refresh it in the background.
    ServeAndRefresh,
    /// Wait for a live answer.
    Fetch,
}

/// Stale-while-revalidate: an answer younger than the TTL is served as is;
/// an older one is still served at once while a refresh runs in the
/// background; only a cold slot, one past the staleness ceiling, or an
/// explicit `fresh` request waits for a live answer.
pub open spec fn spec_cache_action(fresh: bool, age_ms: Option<u64>) -> CacheAction {
    if fresh {
        CacheAction::Fetch
    } else {
        match age_ms {
            Some(age) => if age < CACHE_TTL_MS {
                CacheAction::Serve
            } else if age < MAX_STALE_MS {
                CacheAction::ServeAndRefresh
            } else {
                CacheAction::Fetch
            },
            None => CacheAction::Fetch,
        }
    }
}

/// The action for a request, given the age in milliseconds of the cached
/// answer, if there is one.
pub fn cache_action(fresh: bool, age_ms: Option<u64>) -> (r: CacheAction)
    ensures
        r == spec_cache_action(fresh, age_ms),
{
    if fresh {
        return CacheAction::Fetch;
    }
    match age_ms {
        Some(age) => if age < CACHE_TTL_MS {
            CacheAction::Serve
        } else if age < MAX_STALE_MS {
            CacheAction::ServeAndRefresh
        } else {
            CacheAction::Fetch
        },
        None => CacheAction::Fetch,
    }
}

/// A fetch that waited behind another one takes the answer that one stored,
/// instead of running the CLI again, only while that answer is younger than
/// the TTL, and never for an explicit `fresh` request.
pub open spec fn reuses_stored(fresh: bool, age_ms: Option<u64>) -> bool {
    !fresh && (age_ms matches Some(age) && age < CACHE_TTL_MS)
}

/// Whether a waiting fetch takes the stored answer, given whether the
/// request asked for a fresh answer and the age in milliseconds of what is
/// stored, if anything.
pub fn may_reuse_stored(fresh: bool, age_ms: Option<u64>) -> (r: bool)
    ensures
        r == reuses_stored(fresh, age_ms),
{
    if fresh {
        return false;
    }
    match age_ms {
        Some(age) => age < CACHE_TTL_MS,
        None => false,
    }
}

// --- what a drain brought -----------------------------------------------------

/// Some path in `paths` is `p`.
pub open spec fn listed(paths: Seq<String>, p: Seq<char>) -> bool {
    exists|i: int| 0 <= i < paths.len() && paths[i]@ == p
}

/// The paths of `after` that `before` does not list, in order.
pub open spec fn added_paths(before: Seq<String>, after: Seq<String>) -> Seq<String>
    decreases after.len(),
{
    if after.len() == 0 {
        Seq::empty()
    } else if listed(before, after.last()@) {
        added_paths(before, after.drop_last())
    } else {
        added_paths(before, after.drop_last()).push(after.last())
    }
}

/// The entries of a directory listing taken after a drain that were not
/// there before it: the files the drain brought.
pub fn new_entries(before: &Vec<String>, after: &Vec<String>) -> (r: Vec<String>)
    ensures
        r@ == added_paths(before@, after@),
{
    let mut r: Vec<String> = Vec::new();
    let mut i: usize = 0;
    while i < after.len()
        invariant
            i <= after@.len(),
            r@ == added_paths(before@, after@.take(i as int)),
        decreases after@.len() - i,
    {
        assert(after@.take(i + 1).drop_last() == after@.take(i as int));
        assert(after@.take(i + 1).last() == after@[i as int]);
        let mut j: usize = 0;
        let mut seen = false;
        while j < before.len()
            invariant
                j <= before@.len(),
                i < after@.len(),
                seen == exists|k: int| 0 <= k < j && before@[k]@ == after@[i as int]@,
            decreases before@.len() - j,
        {
            if str_eq(before[j].as_str(), after[i].as_str()) {
                seen = true;
            }
            j += 1;
        }
        if !seen {
            r.push(after[i].clone());
        }
        i += 1;
    }
    assert(after@.take(after@.len() as int) == after@);
    r
}

} // verus!
