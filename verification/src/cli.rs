//! What the `taildrop` command line decides and prints.
use vstd::prelude::*;
use crate::error::TaildropError;
use crate::format::{human_size, spec_human_size};
use crate::models::{DeviceStat, PendingIncoming, TransferRecord};
use crate::store::Store;
use crate::text::{
    chars_of, decimal, decimal_string, pad_left, pad_right, push_padded_left, push_padded_right,
    push_str, starts_with, string_of_range,
};

verus! {

/// Some pending entry's id begins with `prefix`.
pub open spec fn id_matches(item: PendingIncoming, prefix: Seq<char>) -> bool {
    prefix.is_prefix_of(item.id@)
}

/// The number of entries of `p` whose id begins with `prefix`.
pub open spec fn count_matches(p: Seq<PendingIncoming>, prefix: Seq<char>) -> nat
    decreases p.len(),
{
    if p.len() == 0 {
        0
    } else {
        count_matches(p.drop_last(), prefix) + if id_matches(p.last(), prefix) { 1nat } else { 0nat }
    }
}

proof fn lemma_count_matches_zero(p: Seq<PendingIncoming>, prefix: Seq<char>)
    requires
        forall|i: int| 0 <= i < p.len() ==> !id_matches(#[trigger] p[i], prefix),
    ensures
        count_matches(p, prefix) == 0,
    decreases p.len(),
{
    if p.len() > 0 {
        lemma_count_matches_zero(p.drop_last(), prefix);
    }
}

proof fn lemma_count_matches_one(p: Seq<PendingIncoming>, prefix: Seq<char>, k: int)
    requires
        0 <= k < p.len(),
        id_matches(p[k], prefix),
        forall|i: int| 0 <= i < p.len() && i != k ==> !id_matches(#[trigger] p[i], prefix),
    ensures
        count_matches(p, prefix) == 1,
    decreases p.len(),
{
    if k == p.len() - 1 {
        lemma_count_matches_zero(p.drop_last(), prefix);
    } else {
        lemma_count_matches_one(p.drop_last(), prefix, k);
    }
}

proof fn lemma_count_matches_two(p: Seq<PendingIncoming>, prefix: Seq<char>, a: int, b: int)
    requires
        0 <= a < b < p.len(),
        id_matches(p[a], prefix),
        id_matches(p[b], prefix),
    ensures
        count_matches(p, prefix) >= 2,
    decreases p.len(),
{
    if b == p.len() - 1 {
        lemma_count_matches_positive(p.drop_last(), prefix, a);
    } else {
        lemma_count_matches_two(p.drop_last(), prefix, a, b);
    }
}

proof fn lemma_count_matches_positive(p: Seq<PendingIncoming>, prefix: Seq<char>, a: int)
    requires
        0 <= a < p.len(),
        id_matches(p[a], prefix),
    ensures
        count_matches(p, prefix) >= 1,
    decreases p.len(),
{
    if a < p.len() - 1 {
        lemma_count_matches_positive(p.drop_last(), prefix, a);
    }
}

/// Finds the one pending entry whose id begins with `prefix`, so ids can be
/// abbreviated on the command line. No match is `NotFound`; more than one is
/// a `Command` error asking for a longer id.
pub fn resolve_pending_id(store: &Store, prefix: &str) -> (r: Result<String, TaildropError>)
    ensures
        count_matches(store@.pending, prefix@) == 0 ==> (r matches Err(TaildropError::NotFound(m))
            && m@ == "no pending file matches id \""@ + prefix@
            + "\" (run `taildrop confirm-drop list`)"@),
        count_matches(store@.pending, prefix@) == 1 ==> (r matches Ok(id) && exists|i: int|
            0 <= i < store@.pending.len() && id_matches(#[trigger] store@.pending[i], prefix@) && id@
                == store@.pending[i].id@),
        count_matches(store@.pending, prefix@) >= 2 ==> (r matches Err(TaildropError::Command(m))
            && m@ == "\""@ + prefix@ + "\" matches more than one pending file, use a longer id"@),
{
    let pending = store.list_pending();
    let mut found: Option<usize> = None;
    let mut i: usize = 0;
    while i < pending.len()
        invariant
            i <= pending@.len(),
            pending@ == store@.pending,
            match found {
                None => forall|j: int| 0 <= j < i ==> !id_matches(#[trigger] pending@[j], prefix@),
                Some(k) => k < i && id_matches(pending@[k as int], prefix@) && forall|j: int|
                    0 <= j < i && j != k ==> !id_matches(#[trigger] pending@[j], prefix@),
            },
        decreases pending@.len() - i,
    {
        let id = chars_of(pending[i].id.as_str());
        assert(id@.subrange(0, id@.len() as int) == id@);
        if starts_with(&id, 0, id.len(), prefix) {
            match found {
                Some(k) => {
                    proof {
                        lemma_count_matches_two(pending@, prefix@, k as int, i as int);
                    }
                    let mut m = String::new();
                    push_str(&mut m, "\"");
                    push_str(&mut m, prefix);
                    push_str(&mut m, "\" matches more than one pending file, use a longer id");
                    return Err(TaildropError::Command(m));
                },
                None => {
                    found = Some(i);
                },
            }
        }
        i += 1;
    }
    match found {
        Some(k) => {
            proof {
                lemma_count_matches_one(pending@, prefix@, k as int);
            }
            Ok(pending[k].id.clone())
        },
        None => {
            proof {
                lemma_count_matches_zero(pending@, prefix@);
            }
            let mut m = String::new();
            push_str(&mut m, "no pending file matches id \"");
            push_str(&mut m, prefix);
            push_str(&mut m, "\" (run `taildrop confirm-drop list`)");
            Err(TaildropError::NotFound(m))
        },
    }
}

/// How many bytes `c` takes in UTF-8.
pub open spec fn utf8_width(c: char) -> nat {
    let u = c as u32;
    if u < 0x80 { 1 } else if u < 0x800 { 2 } else if u < 0x10000 { 3 } else { 4 }
}

/// How many bytes `s` takes in UTF-8.
pub open spec fn utf8_len(s: Seq<char>) -> nat
    decreases s.len(),
{
    if s.len() == 0 { 0 } else { utf8_len(s.drop_last()) + utf8_width(s.last()) }
}

/// The characters of `s` that make up its first eight bytes, when eight
/// bytes end on a character boundary (as `&s[..8]` requires).
pub open spec fn spec_short_id(s: Seq<char>) -> Option<Seq<char>> {
    if exists|k: int| 0 <= k <= s.len() && utf8_len(#[trigger] s.take(k)) == 8 {
        Some(s.take(choose|k: int| 0 <= k <= s.len() && utf8_len(#[trigger] s.take(k)) == 8))
    } else {
        None
    }
}

proof fn lemma_utf8_len_grows(s: Seq<char>, i: int, j: int)
    requires
        0 <= i <= j <= s.len(),
    ensures
        utf8_len(s.take(i)) + (j - i) <= utf8_len(s.take(j)),
    decreases j - i,
{
    if i < j {
        lemma_utf8_len_grows(s, i, j - 1);
        assert(s.take(j).drop_last() == s.take(j - 1));
    }
}

fn char_width(c: char) -> (w: usize)
    ensures
        w == utf8_width(c),
{
    let u = c as u32;
    if u < 0x80 { 1 } else if u < 0x800 { 2 } else if u < 0x10000 { 3 } else { 4 }
}

/// The first eight bytes of an id, as characters, if they end on a
/// character boundary.
pub fn short_id(id: &str) -> (r: Option<String>)
    ensures
        opt_chars(r) == spec_short_id(id@),
{
    let v = chars_of(id);
    let mut k: usize = 0;
    let mut bytes: usize = 0;
    while k < v.len() && bytes < 8
        invariant
            k <= v@.len(),
            v@ == id@,
            bytes == utf8_len(v@.take(k as int)),
            bytes < 12,
            forall|j: int| 0 <= j < k ==> utf8_len(v@.take(j)) < 8,
        decreases v@.len() - k,
    {
        assert(v@.take(k + 1).drop_last() == v@.take(k as int));
        bytes = bytes + char_width(v[k]);
        k += 1;
    }
    if bytes == 8 {
        proof {
            let c = choose|c: int| 0 <= c <= id@.len() && utf8_len(#[trigger] id@.take(c)) == 8;
            if c < k {
                lemma_utf8_len_grows(id@, c, k as int);
                assert(utf8_len(v@.take(c)) < 8);
            } else if c > k {
                lemma_utf8_len_grows(id@, k as int, c);
            }
        }
        assert(v@.subrange(0, k as int) == id@.take(k as int));
        Some(string_of_range(&v, 0, k))
    } else {
        proof {
            assert forall|c: int| 0 <= c <= id@.len() implies utf8_len(#[trigger] id@.take(c)) != 8 by {
                if c < k {
                    assert(utf8_len(v@.take(c)) < 8);
                } else if c > k {
                    lemma_utf8_len_grows(id@, k as int, c);
                }
            }
        }
        None
    }
}

/// The characters of an optional string.
pub open spec fn opt_chars(o: Option<String>) -> Option<Seq<char>> {
    match o {
        Some(s) => Some(s@),
        None => None,
    }
}

/// The line listing a pending entry: the first eight bytes of its id, its
/// name, its sender and its size.
pub fn pending_line(item: &PendingIncoming) -> (r: String)
    requires
        spec_short_id(item.id@) is Some,
    ensures
        r@ == spec_short_id(item.id@)->0 + "  "@ + item.file_name@ + " <- "@ + (match item.sender_hostname {
            Some(s) => s@,
            None => "unknown sender"@,
        }) + "  "@ + spec_human_size(item.size as nat),
{
    let short = match short_id(item.id.as_str()) {
        Some(s) => s,
        None => String::new(),
    };
    let mut r = String::new();
    push_str(&mut r, short.as_str());
    push_str(&mut r, "  ");
    push_str(&mut r, item.file_name.as_str());
    push_str(&mut r, " <- ");
    match &item.sender_hostname {
        Some(s) => push_str(&mut r, s.as_str()),
        None => push_str(&mut r, "unknown sender"),
    }
    push_str(&mut r, "  ");
    let h = human_size(item.size);
    push_str(&mut r, h.as_str());
    r
}

/// The line for a file that was sent.
pub fn sent_line(record: &TransferRecord, target: &str) -> (r: String)
    ensures
        r@ == "sent "@ + record.file_name@ + " to "@ + target@ + " ("@ + spec_human_size(record.size as nat) + ")"@,
{
    let mut r = String::new();
    push_str(&mut r, "sent ");
    push_str(&mut r, record.file_name.as_str());
    push_str(&mut r, " to ");
    push_str(&mut r, target);
    push_str(&mut r, " (");
    let h = human_size(record.size);
    push_str(&mut r, h.as_str());
    push_str(&mut r, ")");
    r
}

/// The line for a file that was accepted.
pub fn accepted_line(record: &TransferRecord) -> (r: String)
    ensures
        r@ == "accepted "@ + record.file_name@ + " -> "@ + (match record.saved_path {
            Some(p) => p@,
            None => Seq::empty(),
        }),
{
    let mut r = String::new();
    push_str(&mut r, "accepted ");
    push_str(&mut r, record.file_name.as_str());
    push_str(&mut r, " -> ");
    match &record.saved_path {
        Some(p) => push_str(&mut r, p.as_str()),
        None => {
            assert(r@ + Seq::<char>::empty() == r@);
        },
    }
    r
}

/// The line for a file that was rejected.
pub fn rejected_line(record: &TransferRecord) -> (r: String)
    ensures
        r@ == "rejected "@ + record.file_name@,
{
    let mut r = String::new();
    push_str(&mut r, "rejected ");
    push_str(&mut r, record.file_name.as_str());
    r
}

/// How a `send` of several files ends: an error when any of them failed.
pub fn send_outcome(any_failed: bool) -> (r: Result<(), TaildropError>)
    ensures
        any_failed ==> (r matches Err(TaildropError::Command(m)) && m@ == "one or more sends failed"@),
        !any_failed ==> r is Ok,
{
    if any_failed {
        return Err(TaildropError::Command("one or more sends failed".to_string()));
    }
    Ok(())
}

/// The heading of the device table.
pub fn status_header() -> (r: String)
    ensures
        r@ == pad_right("DEVICE"@, 20) + " "@ + pad_right("OS"@, 9) + " "@ + pad_right("STATUS"@, 8) + " "@
            + pad_right("IP"@, 10) + " "@ + pad_left("SENT"@, 12) + " "@ + pad_left("RECEIVED"@, 12),
{
    let mut r = String::new();
    push_padded_right(&mut r, "DEVICE", 20);
    push_str(&mut r, " ");
    push_padded_right(&mut r, "OS", 9);
    push_str(&mut r, " ");
    push_padded_right(&mut r, "STATUS", 8);
    push_str(&mut r, " ");
    push_padded_right(&mut r, "IP", 10);
    push_str(&mut r, " ");
    push_padded_left(&mut r, "SENT", 12);
    push_str(&mut r, " ");
    push_padded_left(&mut r, "RECEIVED", 12);
    r
}

/// The label of a device in the table.
pub open spec fn device_label(d: DeviceStat) -> Seq<char> {
    if d.peer.is_self {
        d.peer.hostname@ + " (this device)"@
    } else {
        d.peer.hostname@
    }
}

/// The row of the device table for `d`.
pub open spec fn spec_status_row(d: DeviceStat) -> Seq<char> {
    pad_right(device_label(d), 20) + " "@ + pad_right(d.peer.os@, 9) + " "@ + pad_right(
        if d.peer.online { "online"@ } else { "offline"@ },
        8,
    ) + " "@ + pad_right(
        if d.peer.tailscale_ips@.len() > 0 { d.peer.tailscale_ips@[0]@ } else { Seq::empty() },
        10,
    ) + " "@ + pad_left(decimal(d.sent_count as nat), 5) + " ("@ + pad_left(spec_human_size(d.sent_bytes as nat), 5)
        + ") "@ + pad_left(decimal(d.received_count as nat), 5) + " ("@ + pad_left(
        spec_human_size(d.received_bytes as nat),
        5,
    ) + ")"@
}

pub fn status_row(d: &DeviceStat) -> (r: String)
    ensures
        r@ == spec_status_row(*d),
{
    let mut label = String::new();
    push_str(&mut label, d.peer.hostname.as_str());
    if d.peer.is_self {
        push_str(&mut label, " (this device)");
    }
    let ip = if d.peer.tailscale_ips.len() > 0 {
        d.peer.tailscale_ips[0].clone()
    } else {
        String::new()
    };
    let mut r = String::new();
    push_padded_right(&mut r, label.as_str(), 20);
    push_str(&mut r, " ");
    push_padded_right(&mut r, d.peer.os.as_str(), 9);
    push_str(&mut r, " ");
    push_padded_right(&mut r, if d.peer.online { "online" } else { "offline" }, 8);
    push_str(&mut r, " ");
    push_padded_right(&mut r, ip.as_str(), 10);
    push_str(&mut r, " ");
    push_padded_left(&mut r, decimal_string(d.sent_count).as_str(), 5);
    push_str(&mut r, " (");
    push_padded_left(&mut r, human_size(d.sent_bytes).as_str(), 5);
    push_str(&mut r, ") ");
    push_padded_left(&mut r, decimal_string(d.received_count).as_str(), 5);
    push_str(&mut r, " (");
    push_padded_left(&mut r, human_size(d.received_bytes).as_str(), 5);
    push_str(&mut r, ")");
    r
}

} // verus!
