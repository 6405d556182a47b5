//! Discovery parsers for `avahi-browse` (Chromecast) and `pactl` (sound cards
//! and AirPlay receivers), and the probe that runs both programs.
//!
//! Every parser is total: lines that do not fit are skipped.
use vstd::prelude::*;
use crate::output::{all_of, devices_view, AvailableOutputs, DeviceData, OutputDevice, OutputKind, OutputsData};
use crate::sys::command::{asked, Answer, CommandRunner, Invocation};
use crate::text::{fields_are_split_off_one_by_one, joined, joined_fields_come_apart, occurrences_are_found, searching_goes_by_the_characters, after_prefix, cat2, contains, ends, ends_with, holds, last_found, lines, lines_of, opt_view, parse_u16, parse_u32, parsed, piece, pieces, pieces_up_to, rest, rfind, same, split, splitn, starts, starts_with, str_views, strip_prefix, trim, trimmed, views};

verus! {

// ── Deduplication ────────────────────────────────────────────────────────────

/// The devices whose key no earlier device has, in their order.
pub open spec fn first_wins<C>(devices: Seq<OutputDevice>, keys: Seq<C>) -> Seq<OutputDevice>
    decreases devices.len(),
{
    if devices.len() == 0 {
        Seq::empty()
    } else {
        let head = first_wins(devices.drop_last(), keys.take(devices.len() - 1));
        if keys.take(devices.len() - 1).contains(keys[devices.len() - 1]) {
            head
        } else {
            head.push(devices.last())
        }
    }
}

/// Whether `key_fn` may give these keys on these devices.
pub open spec fn keys_of<K, F: Fn(&OutputDevice) -> K>(
    key_fn: F,
    devices: Seq<OutputDevice>,
    keys: Seq<K>,
) -> bool {
    &&& keys.len() == devices.len()
    &&& forall|i: int|
        0 <= i < devices.len() ==> call_ensures(key_fn, (&#[trigger] devices[i],), keys[i])
}

/// Whether `==` may give this answer on these keys.
pub open spec fn compared<K: Eq>(a: K, b: K, equal: bool) -> bool {
    call_ensures(<K as PartialEq>::eq, (&a, &b), equal)
}

/// Whether `fresh` says of every key, as `==` tells it, whether no earlier key equals it.
pub open spec fn tells_fresh<K: Eq>(keys: Seq<K>, fresh: Seq<bool>) -> bool {
    &&& fresh.len() == keys.len()
    &&& forall|j: int, i: int|
        0 <= j < i < keys.len() && fresh[i] ==> #[trigger] compared(keys[j], keys[i], false)
    &&& forall|i: int|
        0 <= i < keys.len() && !#[trigger] fresh[i] ==> exists|j: int|
            0 <= j < i && #[trigger] compared(keys[j], keys[i], true)
}

/// The devices that are marked, in their order.
pub open spec fn marked(devices: Seq<OutputDevice>, marks: Seq<bool>) -> Seq<OutputDevice>
    decreases devices.len(),
{
    if devices.len() == 0 {
        Seq::empty()
    } else {
        let n = devices.len() - 1;
        let head = marked(devices.drop_last(), marks.take(n));
        if marks[n] {
            head.push(devices.last())
        } else {
            head
        }
    }
}

/// Order-preserving, first-wins deduplication: keep the first device of each
/// key that `key_fn` gives, drop the later ones. Keys are told apart by their `==`.
pub fn dedup_by<K: Eq + std::hash::Hash, F: Fn(&OutputDevice) -> K>(
    devices: Vec<OutputDevice>,
    key_fn: F,
) -> (out: Vec<OutputDevice>)
    requires
        forall|d: OutputDevice| call_requires(key_fn, (&d,)),
    ensures
        exists|keys: Seq<K>, fresh: Seq<bool>|
            {
                &&& #[trigger] keys_of(key_fn, devices@, keys)
                &&& #[trigger] tells_fresh(keys, fresh)
                &&& out@ == marked(devices@, fresh)
            },
{
    let mut seen: Vec<K> = Vec::new();
    let mut out: Vec<OutputDevice> = Vec::new();
    let ghost mut marks: Seq<bool> = Seq::empty();
    let mut i: usize = 0;
    while i < devices.len()
        invariant
            i <= devices@.len(),
            seen@.len() == i,
            forall|d: OutputDevice| call_requires(key_fn, (&d,)),
            keys_of(key_fn, devices@.take(i as int), seen@),
            tells_fresh(seen@, marks),
            out@ == marked(devices@.take(i as int), marks),
        decreases devices@.len() - i,
    {
        let key = key_fn(&devices[i]);
        let mut fresh = true;
        let mut k: usize = 0;
        while k < seen.len()
            invariant
                k <= seen@.len(),
                fresh ==> forall|j: int|
                    0 <= j < k ==> #[trigger] compared(seen@[j], key, false),
                !fresh ==> exists|j: int| 0 <= j < k && #[trigger] compared(seen@[j], key, true),
            decreases seen@.len() - k,
        {
            let equal = seen[k] == key;
            assert(compared(seen@[k as int], key, equal));
            if equal {
                fresh = false;
            }
            k = k + 1;
        }
        let ghost keys = seen@;
        let ghost earlier = marks;
        if fresh {
            out.push(devices[i].clone());
        }
        seen.push(key);
        i = i + 1;
        proof {
            marks = marks.push(fresh);
            assert(marks.take(i as int - 1) =~= earlier);
            assert(devices@.take(i as int).drop_last() =~= devices@.take(i as int - 1));
            assert(devices@.take(i as int).last() == devices@[i as int - 1]);
            assert forall|j: int| 0 <= j < i implies call_ensures(
                key_fn,
                (&#[trigger] devices@.take(i as int)[j],),
                seen@[j],
            ) by {
                if j < i - 1 {
                    assert(devices@.take(i as int)[j] == devices@.take(i as int - 1)[j]);
                }
            }
            assert forall|j: int, n: int| 0 <= j < n < seen@.len() && marks[n] implies #[trigger] compared(
                seen@[j],
                seen@[n],
                false,
            ) by {
                assert(seen@[j] == keys[j]);
                if n < keys.len() {
                    assert(seen@[n] == keys[n]);
                    assert(earlier[n]);
                }
            }
            assert forall|n: int| 0 <= n < seen@.len() && !#[trigger] marks[n] implies exists|j: int|
                0 <= j < n && #[trigger] compared(seen@[j], seen@[n], true) by {
                if n < keys.len() {
                    assert(!earlier[n]);
                    let j = choose|j: int|
                        0 <= j < n && #[trigger] compared(keys[j], keys[n], true);
                    assert(compared(seen@[j], seen@[n], true));
                } else {
                    let j = choose|j: int|
                        0 <= j < keys.len() && #[trigger] compared(keys[j], key, true);
                    assert(compared(seen@[j], seen@[n], true));
                }
            }
        }
    }
    assert(devices@.take(devices@.len() as int) == devices@);
    assert(keys_of(key_fn, devices@, seen@));
    out
}

/// Where two keys are equal exactly if they stand for the same thing, deduplication
/// keeps the devices whose key stands for what no earlier one does.
pub proof fn equal_keys_stand_for_the_same<K: Eq, C>(
    devices: Seq<OutputDevice>,
    keys: Seq<K>,
    fresh: Seq<bool>,
    of: spec_fn(K) -> C,
)
    requires
        keys.len() == devices.len(),
        tells_fresh(keys, fresh),
        forall|a: K, b: K, equal: bool| #[trigger]
            compared(a, b, equal) ==> equal == (of(a) == of(b)),
    ensures
        marked(devices, fresh) == first_wins(devices, keys.map_values(of)),
    decreases devices.len(),
{
    if devices.len() > 0 {
        let n = devices.len() - 1;
        let ks = keys.take(n);
        let fs = fresh.take(n);
        let vs = keys.map_values(of);
        assert(vs.take(n) =~= ks.map_values(of));
        assert forall|j: int, i: int| 0 <= j < i < ks.len() && fs[i] implies #[trigger] compared(
            ks[j],
            ks[i],
            false,
        ) by {
            assert(fresh[i]);
            assert(compared(keys[j], keys[i], false));
        }
        assert forall|i: int| 0 <= i < ks.len() && !#[trigger] fs[i] implies exists|j: int|
            0 <= j < i && #[trigger] compared(ks[j], ks[i], true) by {
            assert(!fresh[i]);
            let j = choose|j: int| 0 <= j < i && #[trigger] compared(keys[j], keys[i], true);
            assert(compared(ks[j], ks[i], true));
        }
        equal_keys_stand_for_the_same(devices.drop_last(), ks, fs, of);
        if fresh[n] {
            assert forall|j: int| 0 <= j < n implies vs.take(n)[j] != vs[n] by {
                assert(compared(keys[j], keys[n], false));
            }
        } else {
            let j = choose|j: int| 0 <= j < n && #[trigger] compared(keys[j], keys[n], true);
            assert(vs.take(n)[j] == vs[n]);
        }
    }
}

/// Deduplication keeps only devices of the list, in their order.
proof fn lemma_first_wins<C>(devices: Seq<OutputDevice>, keys: Seq<C>)
    requires
        keys.len() == devices.len(),
    ensures
        kept(devices, keys).len() == first_wins(devices, keys).len(),
        forall|a: int|
            0 <= a < kept(devices, keys).len() ==> 0 <= #[trigger] kept(devices, keys)[a]
                < devices.len() && first_wins(devices, keys)[a] == devices[kept(devices, keys)[a]],
        forall|a: int, b: int|
            0 <= a < b < kept(devices, keys).len() ==> kept(devices, keys)[a] < kept(
                devices,
                keys,
            )[b],
        forall|a: int|
            0 <= a < kept(devices, keys).len() ==> !keys.take(
                #[trigger] kept(devices, keys)[a],
            ).contains(keys[kept(devices, keys)[a]]),
        forall|i: int|
            0 <= i < devices.len() ==> (kept(devices, keys).contains(i) || #[trigger] keys.take(
                i,
            ).contains(keys[i])),
    decreases devices.len(),
{
    if devices.len() > 0 {
        let n = devices.len() - 1;
        let ks = keys.take(n);
        lemma_first_wins(devices.drop_last(), ks);
        assert forall|i: int| 0 <= i <= n implies #[trigger] ks.take(i) == keys.take(i) by {}
        let inner = kept(devices.drop_last(), ks);
        let outer = kept(devices, keys);
        assert forall|a: int| 0 <= a < outer.len() implies !keys.take(#[trigger] outer[a]).contains(
            keys[outer[a]],
        ) by {
            if a < inner.len() {
                assert(outer[a] == inner[a]);
                assert(ks.take(inner[a]) == keys.take(inner[a]));
                assert(ks[inner[a]] == keys[inner[a]]);
            } else {
                assert(outer[a] == n);
            }
        }
        assert forall|i: int| 0 <= i < devices.len() implies (outer.contains(i)
            || #[trigger] keys.take(i).contains(keys[i])) by {
            if i < n {
                assert(ks.take(i) == keys.take(i));
                assert(ks[i] == keys[i]);
                if inner.contains(i) {
                    let a = choose|a: int| 0 <= a < inner.len() && inner[a] == i;
                    assert(outer[a] == i);
                }
            } else if !ks.contains(keys[n]) {
                assert(outer.last() == n);
                assert(outer[outer.len() - 1] == n);
            }
        }
    }
}

/// The positions of the devices that deduplication keeps.
pub open spec fn kept<C>(devices: Seq<OutputDevice>, keys: Seq<C>) -> Seq<int>
    decreases devices.len(),
{
    if devices.len() == 0 {
        Seq::empty()
    } else {
        let head = kept(devices.drop_last(), keys.take(devices.len() - 1));
        if keys.take(devices.len() - 1).contains(keys[devices.len() - 1]) {
            head
        } else {
            head.push(devices.len() - 1)
        }
    }
}

/// Whether deduplication keeps a device with the key of device `i` that stands no
/// later than it.
pub open spec fn represented<C>(devices: Seq<OutputDevice>, keys: Seq<C>, i: int) -> bool {
    exists|a: int|
        0 <= a < kept(devices, keys).len() && #[trigger] kept(devices, keys)[a] <= i && keys[kept(
            devices,
            keys,
        )[a]] == keys[i]
}

/// Deduplication keeps a subsequence of the list: `kept` gives the positions,
/// which grow; no two kept devices share a key; and every key of the list is the
/// key of a kept device that stands no later.
pub proof fn deduplication_keeps_the_first_of_each_key<C>(
    devices: Seq<OutputDevice>,
    keys: Seq<C>,
)
    requires
        keys.len() == devices.len(),
    ensures
        kept(devices, keys).len() == first_wins(devices, keys).len(),
        forall|a: int|
            0 <= a < kept(devices, keys).len() ==> 0 <= #[trigger] kept(devices, keys)[a]
                < devices.len() && first_wins(devices, keys)[a] == devices[kept(devices, keys)[a]],
        forall|a: int, b: int|
            0 <= a < b < kept(devices, keys).len() ==> kept(devices, keys)[a] < kept(
                devices,
                keys,
            )[b] && keys[#[trigger] kept(devices, keys)[a]] != keys[#[trigger] kept(
                devices,
                keys,
            )[b]],
        forall|i: int| 0 <= i < devices.len() ==> #[trigger] represented(devices, keys, i),
{
    lemma_first_wins(devices, keys);
    let ix = kept(devices, keys);
    assert forall|a: int, b: int| 0 <= a < b < ix.len() implies ix[a] < ix[b]
        && keys[#[trigger] ix[a]] != keys[#[trigger] ix[b]] by {
        if keys[ix[a]] == keys[ix[b]] {
            assert(keys.take(ix[b])[ix[a]] == keys[ix[b]]);
            assert(keys.take(ix[b]).contains(keys[ix[b]]));
        }
    }
    assert forall|i: int| 0 <= i < devices.len() implies #[trigger] represented(
        devices,
        keys,
        i,
    ) by {
        lemma_first_of_key(devices, keys, i);
    }
}

proof fn lemma_all_marked(devices: Seq<OutputDevice>, marks: Seq<bool>)
    requires
        marks.len() == devices.len(),
        forall|i: int| 0 <= i < marks.len() ==> #[trigger] marks[i],
    ensures
        marked(devices, marks) == devices,
    decreases devices.len(),
{
    if devices.len() > 0 {
        let n = devices.len() - 1;
        assert(marks[n]);
        assert forall|i: int| 0 <= i < n implies #[trigger] marks.take(n)[i] by {
            assert(marks[i]);
        }
        lemma_all_marked(devices.drop_last(), marks.take(n));
        assert(devices =~= devices.drop_last().push(devices.last()));
    } else {
        assert(devices =~= Seq::empty());
    }
}

/// Deduplicating again by the same key changes nothing: where equal keys stand for the
/// same and the keys that `key_fn` gives a device stand for one thing, what a first
/// deduplication gave is what a second one gives of it.
pub proof fn deduplicating_again_changes_nothing<K: Eq, F: Fn(&OutputDevice) -> K, C>(
    key_fn: F,
    of: spec_fn(K) -> C,
    devices: Seq<OutputDevice>,
    keys: Seq<K>,
    fresh: Seq<bool>,
    out: Seq<OutputDevice>,
    out_keys: Seq<K>,
    out_fresh: Seq<bool>,
)
    requires
        forall|a: K, b: K, equal: bool| #[trigger]
            compared(a, b, equal) ==> equal == (of(a) == of(b)),
        forall|d: OutputDevice, a: K, b: K|
            #![trigger call_ensures(key_fn, (&d,), a), call_ensures(key_fn, (&d,), b)]
            call_ensures(key_fn, (&d,), a) && call_ensures(key_fn, (&d,), b) ==> of(a) == of(b),
        keys_of(key_fn, devices, keys),
        tells_fresh(keys, fresh),
        out == marked(devices, fresh),
        keys_of(key_fn, out, out_keys),
        tells_fresh(out_keys, out_fresh),
    ensures
        marked(out, out_fresh) == out,
{
    let vs = keys.map_values(of);
    equal_keys_stand_for_the_same(devices, keys, fresh, of);
    deduplication_keeps_the_first_of_each_key(devices, vs);
    let ix = kept(devices, vs);
    assert forall|i: int| 0 <= i < out.len() implies of(#[trigger] out_keys[i]) == vs[ix[i]] by {
        let d = devices[ix[i]];
        assert(out[i] == d);
        assert(call_ensures(key_fn, (&out[i],), out_keys[i]));
        assert(call_ensures(key_fn, (&devices[ix[i]],), keys[ix[i]]));
    }
    assert forall|i: int| 0 <= i < out_fresh.len() implies #[trigger] out_fresh[i] by {
        if !out_fresh[i] {
            let j = choose|j: int|
                0 <= j < i && #[trigger] compared(out_keys[j], out_keys[i], true);
            assert(of(out_keys[j]) == of(out_keys[i]));
            assert(vs[ix[j]] != vs[ix[i]]);
        }
    }
    lemma_all_marked(out, out_fresh);
}

proof fn lemma_first_of_key<C>(devices: Seq<OutputDevice>, keys: Seq<C>, i: int)
    requires
        keys.len() == devices.len(),
        0 <= i < devices.len(),
    ensures
        represented(devices, keys, i),
    decreases i,
{
    lemma_first_wins(devices, keys);
    let ix = kept(devices, keys);
    if ix.contains(i) {
        let a = choose|a: int| 0 <= a < ix.len() && ix[a] == i;
        assert(ix[a] <= i && keys[ix[a]] == keys[i]);
    } else {
        assert(keys.take(i).contains(keys[i]));
        let j = choose|j: int| 0 <= j < keys.take(i).len() && keys.take(i)[j] == keys[i];
        lemma_first_of_key(devices, keys, j);
        let a = choose|a: int| 0 <= a < ix.len() && ix[a] <= j && keys[ix[a]] == keys[j];
        assert(ix[a] <= i && keys[ix[a]] == keys[i]);
    }
}

// ── TXT records ──────────────────────────────────────────────────────────────

/// The rest of the first chunk from `i` on that stands between quotes and starts
/// with `prefix`.
pub open spec fn quoted_after(chunks: Seq<Seq<char>>, i: int, prefix: Seq<char>) -> Option<Seq<char>>
    decreases chunks.len() - i,
{
    if i < 0 || i >= chunks.len() {
        None
    } else if i % 2 == 1 && starts(chunks[i], prefix) {
        after_prefix(chunks[i], prefix)
    } else {
        quoted_after(chunks, i + 1, prefix)
    }
}

/// The value of `key` in a list of double-quoted `key=value` tokens. Splitting at
/// the quotes puts what stands between them at the odd positions.
pub open spec fn txt_value(txt: Seq<char>, key: Seq<char>) -> Option<Seq<char>> {
    quoted_after(pieces(txt, '"'), 0, key + "="@)
}

/// Extract the value of `key` from double-quoted TXT tokens such as
/// `"fn=Guest TV" "id=d122a7025b65"`. Values may contain spaces.
pub fn extract_txt_value(txt_tokens: &str, key: &str) -> (out: Option<String>)
    ensures
        opt_view(out) == txt_value(txt_tokens@, key@),
{
    let prefix = cat2(key, "=");
    let chunks = split(txt_tokens, '"');
    let mut i: usize = 0;
    while i < chunks.len()
        invariant
            i <= chunks@.len(),
            prefix@ == key@ + "="@,
            views(chunks@) == pieces(txt_tokens@, '"'),
            txt_value(txt_tokens@, key@) == quoted_after(views(chunks@), i as int, prefix@),
        decreases chunks@.len() - i,
    {
        assert(views(chunks@)[i as int] == chunks@[i as int]@);
        if i % 2 == 1 {
            let stripped = strip_prefix(chunks[i].as_str(), prefix.as_str());
            if stripped.is_some() {
                return stripped;
            }
        }
        i = i + 1;
    }
    None
}

// ── Chromecast ───────────────────────────────────────────────────────────────

/// The Chromecast that a line of `avahi-browse -rtp` resolves, and whether the
/// line is one of IPv4. The fields are separated by `;`: the protocol is field 2,
/// the address field 7, the port field 8, the TXT tokens field 9.
pub open spec fn chromecast_line(line: Seq<char>) -> Option<(DeviceData, bool)> {
    let l = trimmed(line);
    let f = pieces_up_to(l, 10, ';');
    if !starts(l, "="@) || f.len() < 10 {
        None
    } else {
        match (parsed(f[8], u16::MAX as nat), txt_value(f[9], "fn"@), txt_value(f[9], "id"@)) {
            (Some(port), Some(name), Some(id)) => if name.len() == 0 || id.len() == 0 {
                None
            } else {
                Some(
                    (
                        DeviceData {
                            kind: OutputKind::Chromecast,
                            id,
                            name,
                            addr: Some(f[7]),
                            port: Some(port as u16),
                        },
                        f[2] == "IPv4"@,
                    ),
                )
            },
            _ => None,
        }
    }
}

/// The Chromecasts of the lines of one protocol, in their order.
pub open spec fn chromecasts_of(ls: Seq<Seq<char>>, ipv4: bool) -> Seq<DeviceData>
    decreases ls.len(),
{
    if ls.len() == 0 {
        Seq::empty()
    } else {
        let head = chromecasts_of(ls.drop_last(), ipv4);
        match chromecast_line(ls.last()) {
            Some((d, v4)) => if v4 == ipv4 {
                head.push(d)
            } else {
                head
            },
            None => head,
        }
    }
}

/// The Chromecasts that `avahi-browse` resolved: first those of its IPv4 lines,
/// then the others.
pub open spec fn chromecasts_in(avahi: Seq<char>) -> Seq<DeviceData> {
    chromecasts_of(lines_of(avahi), true) + chromecasts_of(lines_of(avahi), false)
}

/// The view of an optional entry.
pub open spec fn entry_view(o: Option<(OutputDevice, bool)>) -> Option<(DeviceData, bool)> {
    match o {
        Some((d, b)) => Some((d@, b)),
        None => None,
    }
}

/// Read one line of `avahi-browse -rtp _googlecast._tcp`.
fn parse_chromecast_line(line: &str) -> (out: Option<(OutputDevice, bool)>)
    ensures
        entry_view(out) == chromecast_line(line@),
{
    let line = trim(line);
    if !starts_with(line.as_str(), "=") {
        return None;
    }
    let fields = splitn(line.as_str(), 10, ';');
    let ghost f = views(fields@);
    if fields.len() < 10 {
        return None;
    }
    assert(forall|k: int| 0 <= k < 10 ==> f[k] == fields@[k]@);
    let is_ipv4 = same(fields[2].as_str(), "IPv4");
    let port: u16 = match parse_u16(fields[8].as_str()) {
        Some(p) => p,
        None => return None,
    };
    let name = match extract_txt_value(fields[9].as_str(), "fn") {
        Some(n) => n,
        None => return None,
    };
    let id = match extract_txt_value(fields[9].as_str(), "id") {
        Some(i) => i,
        None => return None,
    };
    if name.as_str().is_empty() || id.as_str().is_empty() {
        return None;
    }
    Some(
        (
            OutputDevice {
                kind: OutputKind::Chromecast,
                id,
                name,
                addr: Some(fields[7].clone()),
                port: Some(port),
            },
            is_ipv4,
        ),
    )
}

/// Parse `avahi-browse -rtp _googlecast._tcp` output into Chromecast devices.
///
/// Only resolved (`=`) lines count. A device is announced once per protocol:
/// the IPv4 lines come out first, so that a deduplication by `id` keeps the IPv4
/// address.
pub fn parse_chromecasts(avahi: &str) -> (out: Vec<OutputDevice>)
    ensures
        devices_view(out@) == chromecasts_in(avahi@),
{
    let ls = lines(avahi);
    let ghost lv = views(ls@);
    let mut v4: Vec<OutputDevice> = Vec::new();
    let mut v6: Vec<OutputDevice> = Vec::new();
    let mut i: usize = 0;
    assert(devices_view(v4@) =~= Seq::empty());
    assert(devices_view(v6@) =~= Seq::empty());
    assert(lv.take(0) =~= Seq::empty());
    while i < ls.len()
        invariant
            i <= ls@.len(),
            lv == views(ls@),
            devices_view(v4@) == chromecasts_of(lv.take(i as int), true),
            devices_view(v6@) == chromecasts_of(lv.take(i as int), false),
        decreases ls@.len() - i,
    {
        let ghost a = v4@;
        let ghost b = v6@;
        assert(lv.take(i as int + 1).drop_last() == lv.take(i as int));
        assert(lv.take(i as int + 1).last() == ls@[i as int]@);
        match parse_chromecast_line(ls[i].as_str()) {
            Some((d, is_ipv4)) => {
                if is_ipv4 {
                    v4.push(d);
                    assert(devices_view(v4@) == devices_view(a).push(d@));
                } else {
                    v6.push(d);
                    assert(devices_view(v6@) == devices_view(b).push(d@));
                }
            },
            None => {},
        }
        i = i + 1;
    }
    assert(lv.take(lv.len() as int) == lv);
    let ghost a = v4@;
    let ghost b = v6@;
    v4.append(&mut v6);
    assert(devices_view(v4@) == devices_view(a) + devices_view(b));
    v4
}

// ── Sinks ────────────────────────────────────────────────────────────────────

/// The sink that a line of `pactl list short sinks` names: its second field,
/// where fields are separated by tabs.
pub open spec fn sink_name(line: Seq<char>) -> Option<Seq<char>> {
    let f = pieces_up_to(trimmed(line), 5, '\t');
    if f.len() < 2 {
        None
    } else {
        Some(f[1])
    }
}

/// Read the name of a sink from a line of `pactl list short sinks`.
fn parse_sink_name(line: &str) -> (out: Option<String>)
    ensures
        opt_view(out) == sink_name(line@),
{
    let line = trim(line);
    let fields = splitn(line.as_str(), 5, '\t');
    let ghost f = views(fields@);
    if fields.len() < 2 {
        return None;
    }
    assert(f[1] == fields@[1]@);
    Some(fields[1].clone())
}

/// The name of an AirPlay receiver within `raop_sink.<FRIENDLY>.local.<IP>.<PORT>`:
/// what stands before the last `.local`, or everything where there is none.
pub open spec fn friendly_name(remainder: Seq<char>) -> Seq<char> {
    match last_found(remainder, ".local"@) {
        Some(pos) => remainder.take(pos),
        None => remainder,
    }
}

/// The AirPlay receiver behind a sink.
pub open spec fn raop_device(sink: Seq<char>) -> Option<DeviceData> {
    match after_prefix(sink, "raop_sink."@) {
        Some(remainder) => Some(
            DeviceData {
                kind: OutputKind::Airplay,
                id: sink,
                name: friendly_name(remainder),
                addr: None,
                port: None,
            },
        ),
        None => None,
    }
}

/// The AirPlay receivers of the lines of `pactl list short sinks`.
pub open spec fn raop_of(ls: Seq<Seq<char>>) -> Seq<DeviceData>
    decreases ls.len(),
{
    if ls.len() == 0 {
        Seq::empty()
    } else {
        let head = raop_of(ls.drop_last());
        match sink_name(ls.last()) {
            Some(sink) => match raop_device(sink) {
                Some(d) => head.push(d),
                None => head,
            },
            None => head,
        }
    }
}

/// Parse `pactl list short sinks` output into the AirPlay receivers that
/// PipeWire exposes as `raop_sink.*` sinks. The full sink name is the `id`.
pub fn parse_raop_sinks(pactl_sinks: &str) -> (out: Vec<OutputDevice>)
    ensures
        devices_view(out@) == raop_of(lines_of(pactl_sinks@)),
{
    let ls = lines(pactl_sinks);
    let ghost lv = views(ls@);
    let mut out: Vec<OutputDevice> = Vec::new();
    let mut i: usize = 0;
    assert(devices_view(out@) =~= Seq::empty());
    assert(lv.take(0) =~= Seq::empty());
    while i < ls.len()
        invariant
            i <= ls@.len(),
            lv == views(ls@),
            devices_view(out@) == raop_of(lv.take(i as int)),
        decreases ls@.len() - i,
    {
        let ghost before = out@;
        assert(lv.take(i as int + 1).drop_last() == lv.take(i as int));
        assert(lv.take(i as int + 1).last() == ls@[i as int]@);
        if let Some(sink) = parse_sink_name(ls[i].as_str()) {
            if let Some(remainder) = strip_prefix(sink.as_str(), "raop_sink.") {
                let name = match rfind(remainder.as_str(), ".local") {
                    Some(pos) => {
                        let n = piece(remainder.as_str(), 0, pos);
                        assert(n@ == remainder@.take(pos as int));
                        n
                    },
                    None => remainder.clone(),
                };
                let d = OutputDevice {
                    kind: OutputKind::Airplay,
                    id: sink,
                    name,
                    addr: None,
                    port: None,
                };
                out.push(d);
                assert(devices_view(out@) == devices_view(before).push(d@));
            }
        }
        i = i + 1;
    }
    assert(lv.take(lv.len() as int) == lv);
    out
}

/// Whether a sink is a hardware sound card: not one of ours, not an AirPlay
/// receiver, not an effect and not a monitor.
pub open spec fn is_hardware(sink: Seq<char>) -> bool {
    &&& !starts(sink, "soundsync"@)
    &&& !starts(sink, "raop_sink."@)
    &&& !holds(sink, "effect_"@)
    &&& !ends(sink, ".monitor"@)
}

/// The sound card behind a hardware sink.
pub open spec fn soundcard_device(sink: Seq<char>) -> DeviceData {
    DeviceData { kind: OutputKind::Soundcard, id: sink, name: sink, addr: None, port: None }
}

/// The sound cards of the lines of `pactl list short sinks`.
pub open spec fn soundcards_of(ls: Seq<Seq<char>>) -> Seq<DeviceData>
    decreases ls.len(),
{
    if ls.len() == 0 {
        Seq::empty()
    } else {
        let head = soundcards_of(ls.drop_last());
        match sink_name(ls.last()) {
            Some(sink) => if is_hardware(sink) {
                head.push(soundcard_device(sink))
            } else {
                head
            },
            None => head,
        }
    }
}

/// Parse `pactl list short sinks` output into hardware sound-card sinks.
pub fn parse_soundcard_sinks(pactl: &str) -> (out: Vec<OutputDevice>)
    ensures
        devices_view(out@) == soundcards_of(lines_of(pactl@)),
{
    let ls = lines(pactl);
    let ghost lv = views(ls@);
    let mut out: Vec<OutputDevice> = Vec::new();
    let mut i: usize = 0;
    assert(devices_view(out@) =~= Seq::empty());
    assert(lv.take(0) =~= Seq::empty());
    while i < ls.len()
        invariant
            i <= ls@.len(),
            lv == views(ls@),
            devices_view(out@) == soundcards_of(lv.take(i as int)),
        decreases ls@.len() - i,
    {
        let ghost before = out@;
        assert(lv.take(i as int + 1).drop_last() == lv.take(i as int));
        assert(lv.take(i as int + 1).last() == ls@[i as int]@);
        if let Some(name) = parse_sink_name(ls[i].as_str()) {
            if !(starts_with(name.as_str(), "soundsync") || starts_with(name.as_str(), "raop_sink.")
                || contains(name.as_str(), "effect_") || ends_with(name.as_str(), ".monitor")) {
                let d = OutputDevice {
                    kind: OutputKind::Soundcard,
                    id: name.clone(),
                    name,
                    addr: None,
                    port: None,
                };
                out.push(d);
                assert(devices_view(out@) == devices_view(before).push(d@));
            }
        }
        i = i + 1;
    }
    assert(lv.take(lv.len() as int) == lv);
    out
}

// ── Modules ──────────────────────────────────────────────────────────────────

/// Whether a line of `pactl list short modules` is of the module `name`.
pub open spec fn names_module(line: Seq<char>, name: Seq<char>) -> bool {
    let f = pieces_up_to(trimmed(line), 3, '\t');
    f.len() >= 2 && f[1] == name
}

/// The id in the first line, from line `i` on, that is of the module `name`.
pub open spec fn module_id_from(ls: Seq<Seq<char>>, i: int, name: Seq<char>) -> Option<nat>
    decreases ls.len() - i,
{
    if i < 0 || i >= ls.len() {
        None
    } else if names_module(ls[i], name) {
        parsed(pieces_up_to(trimmed(ls[i]), 3, '\t')[0], u32::MAX as nat)
    } else {
        module_id_from(ls, i + 1, name)
    }
}

/// Parse `pactl list short modules` output and return the numeric id of the
/// first row whose module name equals `module_name`; `None` where there is no
/// such row or its id is not a number.
pub fn parse_module_id_by_name(pactl_modules: &str, module_name: &str) -> (id: Option<u32>)
    ensures
        match id {
            Some(n) => module_id_from(lines_of(pactl_modules@), 0, module_name@) == Some(n as nat),
            None => module_id_from(lines_of(pactl_modules@), 0, module_name@) is None,
        },
{
    let ls = lines(pactl_modules);
    let ghost lv = views(ls@);
    let mut i: usize = 0;
    while i < ls.len()
        invariant
            i <= ls@.len(),
            lv == views(ls@),
            lv == lines_of(pactl_modules@),
            module_id_from(lv, 0, module_name@) == module_id_from(lv, i as int, module_name@),
        decreases ls@.len() - i,
    {
        let line = trim(ls[i].as_str());
        let fields = splitn(line.as_str(), 3, '\t');
        let ghost f = views(fields@);
        assert(lv[i as int] == ls@[i as int]@);
        assert(f[0] == fields@[0]@);
        if fields.len() >= 2 {
            assert(f[1] == fields@[1]@);
            if same(fields[1].as_str(), module_name) {
                return parse_u32(fields[0].as_str());
            }
        }
        i = i + 1;
    }
    None
}

// ── Probe ────────────────────────────────────────────────────────────────────

/// What tells two devices apart: the display name or the identifier.
pub open spec fn key(d: DeviceData, by_name: bool) -> Seq<char> {
    if by_name {
        d.name
    } else {
        d.id
    }
}

/// Whether a device of the list has the key.
pub open spec fn has_key(ds: Seq<DeviceData>, by_name: bool, k: Seq<char>) -> bool {
    exists|i: int| 0 <= i < ds.len() && key(#[trigger] ds[i], by_name) == k
}

/// The devices whose key no earlier device has, in their order.
pub open spec fn unique_by(ds: Seq<DeviceData>, by_name: bool) -> Seq<DeviceData>
    decreases ds.len(),
{
    if ds.len() == 0 {
        Seq::empty()
    } else {
        let head = unique_by(ds.drop_last(), by_name);
        if has_key(ds.drop_last(), by_name, key(ds.last(), by_name)) {
            head
        } else {
            head.push(ds.last())
        }
    }
}

proof fn lemma_unique_by(devices: Seq<OutputDevice>, keys: Seq<Seq<char>>, by_name: bool)
    requires
        keys.len() == devices.len(),
        forall|i: int| 0 <= i < devices.len() ==> keys[i] == key(#[trigger] devices[i]@, by_name),
    ensures
        devices_view(first_wins(devices, keys)) == unique_by(devices_view(devices), by_name),
    decreases devices.len(),
{
    let dv = devices_view(devices);
    if devices.len() == 0 {
        assert(devices_view(first_wins(devices, keys)) =~= Seq::empty());
    } else {
        let n = devices.len() - 1;
        let ks = keys.take(n);
        lemma_unique_by(devices.drop_last(), ks, by_name);
        assert(devices_view(devices.drop_last()) == dv.drop_last());
        assert(dv.last() == devices.last()@);
        if ks.contains(keys[n]) {
            let j = choose|j: int| 0 <= j < ks.len() && ks[j] == keys[n];
            assert(dv.drop_last()[j] == devices[j]@);
            assert(has_key(dv.drop_last(), by_name, key(dv.last(), by_name)));
        } else {
            if has_key(dv.drop_last(), by_name, key(dv.last(), by_name)) {
                let j = choose|j: int|
                    0 <= j < dv.drop_last().len() && key(#[trigger] dv.drop_last()[j], by_name)
                        == key(dv.last(), by_name);
                assert(dv.drop_last()[j] == devices[j]@);
                assert(ks[j] == keys[n]);
            }
            assert(devices_view(first_wins(devices, keys)) == devices_view(
                first_wins(devices.drop_last(), ks),
            ).push(devices.last()@));
        }
    }
}

/// The outputs that the answers of `avahi-browse` and `pactl` show. A program
/// that could not be started contributes nothing.
pub open spec fn outputs_from(avahi: Answer, sinks: Answer) -> OutputsData {
    OutputsData {
        chromecast: match avahi {
            Ok(o) => unique_by(chromecasts_in(o.stdout@), false),
            Err(_) => Seq::empty(),
        },
        soundcard: match sinks {
            Ok(o) => unique_by(soundcards_of(lines_of(o.stdout@)), false),
            Err(_) => Seq::empty(),
        },
        airplay: match sinks {
            Ok(o) => unique_by(raop_of(lines_of(o.stdout@)), true),
            Err(_) => Seq::empty(),
        },
    }
}

fn unique_ids(devices: Vec<OutputDevice>) -> (out: Vec<OutputDevice>)
    ensures
        devices_view(out@) == unique_by(devices_view(devices@), false),
{
    let ghost dv = devices@;
    let key_fn = |d: &OutputDevice| -> (k: String)
        ensures
            k@ == d.id@,
        { d.id.clone() };
    let out = dedup_by(devices, key_fn);
    proof {
        let (keys, fresh) = choose|keys: Seq<String>, fresh: Seq<bool>|
            #[trigger] keys_of(key_fn, dv, keys) && #[trigger] tells_fresh(keys, fresh) && out@
                == marked(dv, fresh);
        equal_keys_stand_for_the_same(dv, keys, fresh, |s: String| s@);
        assert(views(keys) =~= keys.map_values(|s: String| s@));
        lemma_unique_by(dv, views(keys), false);
    }
    out
}

fn unique_names(devices: Vec<OutputDevice>) -> (out: Vec<OutputDevice>)
    ensures
        devices_view(out@) == unique_by(devices_view(devices@), true),
{
    let ghost dv = devices@;
    let key_fn = |d: &OutputDevice| -> (k: String)
        ensures
            k@ == d.name@,
        { d.name.clone() };
    let out = dedup_by(devices, key_fn);
    proof {
        let (keys, fresh) = choose|keys: Seq<String>, fresh: Seq<bool>|
            #[trigger] keys_of(key_fn, dv, keys) && #[trigger] tells_fresh(keys, fresh) && out@
                == marked(dv, fresh);
        equal_keys_stand_for_the_same(dv, keys, fresh, |s: String| s@);
        assert(views(keys) =~= keys.map_values(|s: String| s@));
        lemma_unique_by(dv, views(keys), true);
    }
    out
}

/// Aggregate the answers of `avahi-browse` and `pactl list short sinks`.
///
/// Chromecasts and sound cards are told apart by their stable `id`; AirPlay
/// receivers by their display name, which collapses near-identical bridge sinks.
pub fn outputs_of(avahi: &Answer, sinks: &Answer) -> (out: AvailableOutputs)
    ensures
        out@ == outputs_from(*avahi, *sinks),
{
    let mut out = AvailableOutputs::default();
    if let Ok(o) = avahi {
        out.chromecast = unique_ids(parse_chromecasts(o.stdout.as_str()));
    }
    if let Ok(o) = sinks {
        out.soundcard = unique_ids(parse_soundcard_sinks(o.stdout.as_str()));
        out.airplay = unique_names(parse_raop_sinks(o.stdout.as_str()));
    }
    assert(out@.chromecast =~= outputs_from(*avahi, *sinks).chromecast);
    assert(out@.soundcard =~= outputs_from(*avahi, *sinks).soundcard);
    assert(out@.airplay =~= outputs_from(*avahi, *sinks).airplay);
    out
}

/// Whether these runs are one probe with this outcome.
pub open spec fn probed(runs: Seq<Invocation>, out: OutputsData) -> bool {
    &&& runs.len() == 2
    &&& asked(runs[0], "avahi-browse"@, seq!["-rtp"@, "_googlecast._tcp"@])
    &&& asked(runs[1], "pactl"@, seq!["list"@, "short"@, "sinks"@])
    &&& out == outputs_from(runs[0].answer, runs[1].answer)
}

/// Run all discovery commands and aggregate their results. Best-effort: a
/// command that cannot be run yields an empty list for its kinds.
pub fn probe_outputs<R: CommandRunner>(runner: &mut R) -> (out: AvailableOutputs)
    ensures
        exists|runs: Seq<Invocation>|
            final(runner).trace() == old(runner).trace() + runs && probed(runs, out@),
{
    let avahi = runner.run("avahi-browse", &["-rtp", "_googlecast._tcp"]);
    let sinks = runner.run("pactl", &["list", "short", "sinks"]);
    let out = outputs_of(&avahi, &sinks);
    proof {
        let a = Invocation {
            program: "avahi-browse"@,
            args: str_views((&["-rtp", "_googlecast._tcp"])@),
            answer: avahi,
        };
        let b = Invocation {
            program: "pactl"@,
            args: str_views((&["list", "short", "sinks"])@),
            answer: sinks,
        };
        let runs = seq![a, b];
        assert(a.args =~= seq!["-rtp"@, "_googlecast._tcp"@]);
        assert(b.args =~= seq!["list"@, "short"@, "sinks"@]);
        assert(runner.trace() =~= old(runner).trace() + runs);
        assert(probed(runs, out@));
    }
    out
}

proof fn lemma_unique_is_first(ds: Seq<DeviceData>, by_name: bool, a: int)
    requires
        0 <= a < unique_by(ds, by_name).len(),
    ensures
        exists|i: int|
            0 <= i < ds.len() && #[trigger] ds[i] == unique_by(ds, by_name)[a] && forall|j: int|
                0 <= j < i ==> key(#[trigger] ds[j], by_name) != key(ds[i], by_name),
    decreases ds.len(),
{
    let head = unique_by(ds.drop_last(), by_name);
    if a < head.len() {
        lemma_unique_is_first(ds.drop_last(), by_name, a);
        let i = choose|i: int|
            0 <= i < ds.drop_last().len() && #[trigger] ds.drop_last()[i] == head[a] && forall|
                j: int,
            |
                0 <= j < i ==> key(#[trigger] ds.drop_last()[j], by_name) != key(
                    ds.drop_last()[i],
                    by_name,
                );
        assert(ds[i] == head[a]);
        assert forall|j: int| 0 <= j < i implies key(#[trigger] ds[j], by_name) != key(
            ds[i],
            by_name,
        ) by {
            assert(ds.drop_last()[j] == ds[j]);
        }
    } else {
        let i = ds.len() - 1;
        assert forall|j: int| 0 <= j < i implies key(#[trigger] ds[j], by_name) != key(
            ds[i],
            by_name,
        ) by {
            assert(ds.drop_last()[j] == ds[j]);
        }
        assert(ds[i] == unique_by(ds, by_name)[a]);
    }
}

/// A Chromecast that an IPv4 line announces is offered with the address of such
/// a line, wherever the IPv6 lines of the same device stand.
pub proof fn ipv4_is_preferred(avahi: Seq<char>, a: int)
    requires
        0 <= a < unique_by(chromecasts_in(avahi), false).len(),
        has_key(
            chromecasts_of(lines_of(avahi), true),
            false,
            unique_by(chromecasts_in(avahi), false)[a].id,
        ),
    ensures
        chromecasts_of(lines_of(avahi), true).contains(unique_by(chromecasts_in(avahi), false)[a]),
{
    let v4 = chromecasts_of(lines_of(avahi), true);
    let all = chromecasts_in(avahi);
    let d = unique_by(all, false)[a];
    lemma_unique_is_first(all, false, a);
    let i = choose|i: int|
        0 <= i < all.len() && #[trigger] all[i] == d && forall|j: int|
            0 <= j < i ==> key(#[trigger] all[j], false) != key(all[i], false);
    let j = choose|j: int| 0 <= j < v4.len() && key(#[trigger] v4[j], false) == d.id;
    assert(all[j] == v4[j]);
    assert(i <= j);
    assert(v4[i] == d);
}

/// No two offered devices of one kind have the same key.
pub proof fn offered_devices_are_distinct(ds: Seq<DeviceData>, by_name: bool, a: int, b: int)
    requires
        0 <= a < b < unique_by(ds, by_name).len(),
    ensures
        key(unique_by(ds, by_name)[a], by_name) != key(unique_by(ds, by_name)[b], by_name),
    decreases ds.len(),
{
    let head = unique_by(ds.drop_last(), by_name);
    if b < head.len() {
        offered_devices_are_distinct(ds.drop_last(), by_name, a, b);
    } else {
        lemma_unique_is_first(ds.drop_last(), by_name, a);
        let i = choose|i: int|
            0 <= i < ds.drop_last().len() && #[trigger] ds.drop_last()[i] == head[a] && forall|
                j: int,
            |
                0 <= j < i ==> key(#[trigger] ds.drop_last()[j], by_name) != key(
                    ds.drop_last()[i],
                    by_name,
                );
        assert(key(ds.drop_last()[i], by_name) == key(head[a], by_name));
    }
}

proof fn lemma_unique_all_of(ds: Seq<DeviceData>, by_name: bool, kind: OutputKind)
    requires
        all_of(ds, kind),
    ensures
        all_of(unique_by(ds, by_name), kind),
    decreases ds.len(),
{
    if ds.len() > 0 {
        assert forall|i: int| 0 <= i < ds.drop_last().len() implies (
        #[trigger] ds.drop_last()[i]).kind == kind by {
            assert(ds.drop_last()[i] == ds[i]);
        }
        assert(ds[ds.len() - 1].kind == kind);
        lemma_unique_all_of(ds.drop_last(), by_name, kind);
    }
}

proof fn lemma_parsed_all_of(ls: Seq<Seq<char>>)
    ensures
        all_of(chromecasts_of(ls, true), OutputKind::Chromecast),
        all_of(chromecasts_of(ls, false), OutputKind::Chromecast),
        all_of(raop_of(ls), OutputKind::Airplay),
        all_of(soundcards_of(ls), OutputKind::Soundcard),
    decreases ls.len(),
{
    if ls.len() > 0 {
        lemma_parsed_all_of(ls.drop_last());
    }
}

/// A probe files every device under its kind.
pub proof fn lemma_probed_by_kind(avahi: Answer, sinks: Answer)
    ensures
        outputs_from(avahi, sinks).by_kind(),
{
    if let Ok(o) = avahi {
        let ls = lines_of(o.stdout@);
        lemma_parsed_all_of(ls);
        lemma_unique_all_of(chromecasts_in(o.stdout@), false, OutputKind::Chromecast);
    }
    if let Ok(o) = sinks {
        let ls = lines_of(o.stdout@);
        lemma_parsed_all_of(ls);
        lemma_unique_all_of(soundcards_of(ls), false, OutputKind::Soundcard);
        lemma_unique_all_of(raop_of(ls), true, OutputKind::Airplay);
    }
}

// ── Laws of the parsers ──────────────────────────────────────────────────────

/// The value of a key is what follows it and an equals sign in the first quoted token
/// that starts so, wherever that stands; quoted tokens are those after an odd number of
/// quotes. There is none only where no quoted token starts so.
pub proof fn txt_values_are_found(txt: Seq<char>, key: Seq<char>)
    ensures
        txt_value(txt, key) is None <==> forall|i: int|
            0 <= i < pieces(txt, '"').len() && i % 2 == 1 ==> !starts(
                #[trigger] pieces(txt, '"')[i],
                key + "="@,
            ),
        txt_value(txt, key) matches Some(v) ==> exists|i: int|
            0 <= i < pieces(txt, '"').len() && i % 2 == 1 && #[trigger] pieces(txt, '"')[i] == key
                + "="@ + v && forall|k: int|
                0 <= k < i && k % 2 == 1 ==> !starts(#[trigger] pieces(txt, '"')[k], key + "="@),
{
    lemma_quoted_after(pieces(txt, '"'), 0, key + "="@);
}

proof fn lemma_quoted_after(chunks: Seq<Seq<char>>, from: int, prefix: Seq<char>)
    requires
        0 <= from <= chunks.len(),
    ensures
        quoted_after(chunks, from, prefix) is None <==> forall|i: int|
            from <= i < chunks.len() && i % 2 == 1 ==> !starts(#[trigger] chunks[i], prefix),
        quoted_after(chunks, from, prefix) matches Some(v) ==> exists|i: int|
            from <= i < chunks.len() && i % 2 == 1 && #[trigger] chunks[i] == prefix + v && forall|
                k: int,
            |
                from <= k < i && k % 2 == 1 ==> !starts(#[trigger] chunks[k], prefix),
    decreases chunks.len() - from,
{
    if from < chunks.len() {
        lemma_quoted_after(chunks, from + 1, prefix);
        if from % 2 == 1 && starts(chunks[from], prefix) {
            searching_goes_by_the_characters(chunks[from], prefix);
            assert(chunks[from] == prefix + chunks[from].skip(prefix.len() as int));
        }
    }
}

/// A line of ten fields resolves a Chromecast where it starts with an equals sign, its
/// port is a number, and its TXT tokens give it a name and an id; these are what the
/// device has, with the address of the eighth field. Whether the line is of IPv4 its
/// third field says.
pub proof fn resolved_lines_give_their_chromecast(fields: Seq<Seq<char>>)
    requires
        fields.len() == 10,
        forall|k: int| 0 <= k < 9 ==> !(#[trigger] fields[k]).contains(';'),
        trimmed(joined(fields, seq![';'])) == joined(fields, seq![';']),
    ensures
        chromecast_line(joined(fields, seq![';'])) is Some <==> starts(
            joined(fields, seq![';']),
            "="@,
        ) && parsed(fields[8], 65535) is Some && (txt_value(fields[9], "fn"@) matches Some(n)
            && n.len() > 0) && (txt_value(fields[9], "id"@) matches Some(n) && n.len() > 0),
        chromecast_line(joined(fields, seq![';'])) matches Some((d, ipv4)) ==> {
            &&& d.kind == OutputKind::Chromecast
            &&& Some(d.id) == txt_value(fields[9], "id"@)
            &&& Some(d.name) == txt_value(fields[9], "fn"@)
            &&& d.addr == Some(fields[7])
            &&& d.port is Some && parsed(fields[8], 65535) == Some(d.port->0 as nat)
            &&& ipv4 <==> fields[2] == "IPv4"@
        },
{
    joined_fields_come_apart(fields, ';');
}

/// White space around a line makes no difference, and a line that is not resolved gives
/// no Chromecast.
pub proof fn only_resolved_lines_count(line: Seq<char>)
    ensures
        chromecast_line(line) == chromecast_line(trimmed(line)),
        !starts(trimmed(line), "="@) ==> chromecast_line(line) is None,
{
    crate::text::trimming_is_idempotent(line);
}

/// Every line that resolves a Chromecast has it listed, and every one that is listed is
/// resolved by a line; those of IPv4 lines stand first.
pub proof fn resolved_chromecasts_are_listed(avahi: Seq<char>, d: DeviceData)
    ensures
        chromecasts_in(avahi).contains(d) <==> exists|k: int|
            0 <= k < lines_of(avahi).len() && (chromecast_line(#[trigger] lines_of(avahi)[k])
                == Some((d, true)) || chromecast_line(lines_of(avahi)[k]) == Some((d, false))),
        (exists|k: int|
            0 <= k < lines_of(avahi).len() && chromecast_line(#[trigger] lines_of(avahi)[k]) == Some(
                (d, true),
            )) ==> exists|i: int|
            0 <= i < chromecasts_in(avahi).len() && #[trigger] chromecasts_in(avahi)[i] == d
                && forall|j: int|
                #![trigger chromecasts_in(avahi)[j]]
                0 <= j < i ==> exists|l: int|
                    0 <= l < lines_of(avahi).len() && chromecast_line(#[trigger] lines_of(avahi)[l])
                        == Some((chromecasts_in(avahi)[j], true)),
{
    let ls = lines_of(avahi);
    let v4 = chromecasts_of(ls, true);
    let v6 = chromecasts_of(ls, false);
    let all = chromecasts_in(avahi);
    lemma_listed(ls, true, d);
    lemma_listed(ls, false, d);
    if all.contains(d) {
        let i = choose|i: int| 0 <= i < all.len() && all[i] == d;
        if i < v4.len() {
            assert(v4[i] == d);
        } else {
            assert(v6[i - v4.len()] == d);
        }
    }
    if v4.contains(d) {
        let i = choose|i: int| 0 <= i < v4.len() && v4[i] == d;
        assert(all[i] == d);
        assert forall|j: int|
            #![trigger all[j]]
            0 <= j < i implies exists|l: int|
            0 <= l < ls.len() && chromecast_line(#[trigger] ls[l]) == Some((all[j], true)) by {
            assert(v4[j] == all[j]);
            assert(v4.contains(all[j]));
            lemma_listed(ls, true, all[j]);
        }
    }
    if v6.contains(d) {
        let i = choose|i: int| 0 <= i < v6.len() && v6[i] == d;
        assert(all[v4.len() + i] == d);
    }
}

proof fn lemma_listed(ls: Seq<Seq<char>>, ipv4: bool, d: DeviceData)
    ensures
        chromecasts_of(ls, ipv4).contains(d) <==> exists|k: int|
            0 <= k < ls.len() && chromecast_line(#[trigger] ls[k]) == Some((d, ipv4)),
    decreases ls.len(),
{
    let all = chromecasts_of(ls, ipv4);
    if ls.len() > 0 {
        let front = ls.drop_last();
        let n = ls.len() - 1;
        lemma_listed(front, ipv4, d);
        let head = chromecasts_of(front, ipv4);
        if head.contains(d) {
            let i = choose|i: int| 0 <= i < head.len() && head[i] == d;
            assert(all[i] == d);
            let k = choose|k: int|
                0 <= k < front.len() && chromecast_line(#[trigger] front[k]) == Some((d, ipv4));
            assert(chromecast_line(ls[k]) == Some((d, ipv4)));
        }
        if chromecast_line(ls[n]) == Some((d, ipv4)) {
            assert(all[head.len() as int] == d);
        }
        if exists|k: int| 0 <= k < ls.len() && chromecast_line(#[trigger] ls[k]) == Some((d, ipv4)) {
            let k = choose|k: int|
                0 <= k < ls.len() && chromecast_line(#[trigger] ls[k]) == Some((d, ipv4));
            if k < n {
                assert(front[k] == ls[k]);
            }
        }
        if all.contains(d) && !head.contains(d) {
            let i = choose|i: int| 0 <= i < all.len() && all[i] == d;
            if i < head.len() {
                assert(head[i] == d);
            }
        }
    }
}

/// The name of a sink is the second field of its line, whatever follows it.
pub proof fn sinks_are_named_by_their_second_field(
    number: Seq<char>,
    name: Seq<char>,
    rest: Seq<char>,
)
    requires
        !number.contains('\t'),
        !name.contains('\t'),
    ensures
        trimmed(number + seq!['\t'] + name + seq!['\t'] + rest) == number + seq!['\t'] + name + seq![
            '\t',
        ] + rest ==> sink_name(number + seq!['\t'] + name + seq!['\t'] + rest) == Some(name),
        trimmed(number + seq!['\t'] + name) == number + seq!['\t'] + name ==> sink_name(
            number + seq!['\t'] + name,
        ) == Some(name),
        trimmed(number) == number ==> sink_name(number) is None,
{
    let tail = name + seq!['\t'] + rest;
    assert(number + seq!['\t'] + name + seq!['\t'] + rest =~= number + seq!['\t'] + tail);
    fields_are_split_off_one_by_one(number, '\t', tail, 5);
    fields_are_split_off_one_by_one(name, '\t', rest, 4);
    fields_are_split_off_one_by_one(number, '\t', name, 5);
    fields_are_split_off_one_by_one(name, '\t', name, 4);
}

/// An AirPlay receiver is a sink whose name starts with `raop_sink.`; that name is its
/// id, and what follows, up to the last `.local` where there is one, its display name.
pub proof fn receivers_are_named_by_their_sink(sink: Seq<char>)
    ensures
        raop_device(sink) is Some <==> exists|r: Seq<char>| sink == #[trigger] ("raop_sink."@ + r),
        raop_device(sink) matches Some(d) ==> {
            &&& d.kind == OutputKind::Airplay
            &&& d.id == sink
            &&& d.addr is None && d.port is None
            &&& (sink == "raop_sink."@ + d.name && !holds(d.name, ".local"@)) || exists|rest: Seq<
                char,
            >|
                sink == "raop_sink."@ + #[trigger] (d.name + ".local"@ + rest) && !holds(
                    rest,
                    ".local"@,
                )
        },
{
    searching_goes_by_the_characters(sink, "raop_sink."@);
    if let Some(d) = raop_device(sink) {
        let r = after_prefix(sink, "raop_sink."@)->0;
        let p = ".local"@;
        occurrences_are_found(r, p);
        match last_found(r, p) {
            Some(n) => {
                let rest = r.skip(n + p.len());
                reveal_strlit(".local");
                assert(r =~= d.name + p + rest);
                if holds(rest, p) {
                    let j = choose|j: int| crate::text::occurs_at(rest, p, j);
                    let at = n + p.len() + j;
                    assert(r.subrange(at, at + p.len()) =~= rest.subrange(j, j + p.len()));
                }
            },
            None => {
                if holds(r, p) {
                    let j = choose|j: int| crate::text::occurs_at(r, p, j);
                    assert(r.subrange(j, j + p.len()) == p);
                }
            },
        }
    }
}

/// Our own sinks, AirPlay receivers, effects and monitors are no sound cards; every
/// other sink is one, and goes by its name.
pub proof fn sound_cards_are_the_other_sinks(sink: Seq<char>)
    ensures
        is_hardware(sink) <==> !(exists|r: Seq<char>| sink == #[trigger] ("soundsync"@ + r)) && !(
        exists|r: Seq<char>| sink == #[trigger] ("raop_sink."@ + r)) && !(exists|
            a: Seq<char>,
            b: Seq<char>,
        |
            sink == #[trigger] (a + "effect_"@ + b)) && !(exists|a: Seq<char>|
            sink == #[trigger] (a + ".monitor"@)),
        soundcard_device(sink).id == sink,
        soundcard_device(sink).name == sink,
        soundcard_device(sink).kind == OutputKind::Soundcard,
        soundcard_device(sink).addr is None,
        is_hardware(sink) ==> raop_device(sink) is None,
{
    searching_goes_by_the_characters(sink, "soundsync"@);
    searching_goes_by_the_characters(sink, "raop_sink."@);
    searching_goes_by_the_characters(sink, "effect_"@);
    searching_goes_by_the_characters(sink, ".monitor"@);
}

/// Every line that names a hardware sink has its sound card listed, every one that names
/// an AirPlay sink its receiver, at whatever position it stands; and nothing else is
/// listed.
pub proof fn named_sinks_are_listed(ls: Seq<Seq<char>>, d: DeviceData)
    ensures
        soundcards_of(ls).contains(d) <==> exists|k: int|
            0 <= k < ls.len() && (sink_name(#[trigger] ls[k]) matches Some(s) && is_hardware(s) && d
                == soundcard_device(s)),
        raop_of(ls).contains(d) <==> exists|k: int|
            0 <= k < ls.len() && (sink_name(#[trigger] ls[k]) matches Some(s) && raop_device(s)
                == Some(d)),
    decreases ls.len(),
{
    if ls.len() > 0 {
        let front = ls.drop_last();
        let n = ls.len() - 1;
        named_sinks_are_listed(front, d);
        let (cards, raops) = (soundcards_of(front), raop_of(front));
        assert forall|k: int| 0 <= k < n implies #[trigger] front[k] == ls[k] by {}
        if cards.contains(d) {
            let i = choose|i: int| 0 <= i < cards.len() && cards[i] == d;
            assert(soundcards_of(ls)[i] == d);
            let k = choose|k: int|
                0 <= k < front.len() && (sink_name(#[trigger] front[k]) matches Some(s)
                    && is_hardware(s) && d == soundcard_device(s));
            assert(ls[k] == front[k]);
        }
        if raops.contains(d) {
            let i = choose|i: int| 0 <= i < raops.len() && raops[i] == d;
            assert(raop_of(ls)[i] == d);
            let k = choose|k: int|
                0 <= k < front.len() && (sink_name(#[trigger] front[k]) matches Some(s)
                    && raop_device(s) == Some(d));
            assert(ls[k] == front[k]);
        }
        if let Some(s) = sink_name(ls[n]) {
            if is_hardware(s) && d == soundcard_device(s) {
                assert(soundcards_of(ls)[cards.len() as int] == d);
            }
            if raop_device(s) == Some(d) {
                assert(raop_of(ls)[raops.len() as int] == d);
            }
        }
        if soundcards_of(ls).contains(d) && !cards.contains(d) {
            let i = choose|i: int| 0 <= i < soundcards_of(ls).len() && soundcards_of(ls)[i] == d;
            if i < cards.len() {
                assert(cards[i] == d);
            }
            assert(ls[n] == ls.last());
        }
        if raop_of(ls).contains(d) && !raops.contains(d) {
            let i = choose|i: int| 0 <= i < raop_of(ls).len() && raop_of(ls)[i] == d;
            if i < raops.len() {
                assert(raops[i] == d);
            }
            assert(ls[n] == ls.last());
        }
        if exists|k: int|
            0 <= k < ls.len() && (sink_name(#[trigger] ls[k]) matches Some(s) && is_hardware(s) && d
                == soundcard_device(s)) {
            let k = choose|k: int|
                0 <= k < ls.len() && (sink_name(#[trigger] ls[k]) matches Some(s) && is_hardware(s)
                    && d == soundcard_device(s));
            if k < n {
                assert(front[k] == ls[k]);
            }
        }
        if exists|k: int|
            0 <= k < ls.len() && (sink_name(#[trigger] ls[k]) matches Some(s) && raop_device(s)
                == Some(d)) {
            let k = choose|k: int|
                0 <= k < ls.len() && (sink_name(#[trigger] ls[k]) matches Some(s) && raop_device(s)
                    == Some(d));
            if k < n {
                assert(front[k] == ls[k]);
            }
        }
    }
}

/// The id of a module stands in the first field of the first line whose second field is
/// its name, at whatever position that line stands.
pub proof fn modules_are_found_by_name(ls: Seq<Seq<char>>, i: int, name: Seq<char>)
    requires
        0 <= i < ls.len(),
        names_module(ls[i], name),
        forall|k: int| 0 <= k < i ==> !names_module(#[trigger] ls[k], name),
    ensures
        module_id_from(ls, 0, name) == parsed(
            pieces_up_to(trimmed(ls[i]), 3, '\t')[0],
            u32::MAX as nat,
        ),
{
    lemma_module_id(ls, 0, i, name);
}

proof fn lemma_module_id(ls: Seq<Seq<char>>, from: int, i: int, name: Seq<char>)
    requires
        0 <= from <= i < ls.len(),
        names_module(ls[i], name),
        forall|k: int| 0 <= k < i ==> !names_module(#[trigger] ls[k], name),
    ensures
        module_id_from(ls, from, name) == parsed(
            pieces_up_to(trimmed(ls[i]), 3, '\t')[0],
            u32::MAX as nat,
        ),
    decreases i - from,
{
    if from < i {
        lemma_module_id(ls, from + 1, i, name);
    }
}

/// A line of a module has its id before its name, with a tab between them, and anything
/// may follow after another tab.
pub proof fn module_lines_hold_id_and_name(id: Seq<char>, module: Seq<char>, rest: Seq<char>)
    requires
        !id.contains('\t'),
        !module.contains('\t'),
        trimmed(id + seq!['\t'] + module + seq!['\t'] + rest) == id + seq!['\t'] + module + seq![
            '\t',
        ] + rest,
    ensures
        forall|name: Seq<char>|
            #[trigger] names_module(id + seq!['\t'] + module + seq!['\t'] + rest, name) <==> name
                == module,
        module_id_from(seq![id + seq!['\t'] + module + seq!['\t'] + rest], 0, module) == parsed(
            id,
            u32::MAX as nat,
        ),
{
    let tail = module + seq!['\t'] + rest;
    let line = id + seq!['\t'] + module + seq!['\t'] + rest;
    assert(line =~= id + seq!['\t'] + tail);
    fields_are_split_off_one_by_one(id, '\t', tail, 3);
    fields_are_split_off_one_by_one(module, '\t', rest, 2);
    assert(names_module(seq![line][0], module));
    modules_are_found_by_name(seq![line], 0, module);
}

/// Of the devices of one key the first is offered, and every key that a device has is
/// offered: Chromecasts and sound cards go by their id, AirPlay receivers by their name.
pub proof fn every_key_is_offered_once(ds: Seq<DeviceData>, i: int)
    requires
        0 <= i < ds.len(),
    ensures
        (forall|k: int| 0 <= k < i ==> (#[trigger] ds[k]).id != ds[i].id) ==> unique_by(
            ds,
            false,
        ).contains(ds[i]),
        (forall|k: int| 0 <= k < i ==> (#[trigger] ds[k]).name != ds[i].name) ==> unique_by(
            ds,
            true,
        ).contains(ds[i]),
    decreases ds.len(),
{
    let front = ds.drop_last();
    let n = ds.len() - 1;
    if i < n {
        every_key_is_offered_once(front, i);
        assert forall|k: int| 0 <= k < i implies #[trigger] front[k] == ds[k] by {}
        if forall|k: int| 0 <= k < i ==> (#[trigger] ds[k]).id != ds[i].id {
            assert(unique_by(front, false).contains(front[i]));
            let a = choose|a: int|
                0 <= a < unique_by(front, false).len() && unique_by(front, false)[a] == ds[i];
            assert(unique_by(ds, false)[a] == ds[i]);
        }
        if forall|k: int| 0 <= k < i ==> (#[trigger] ds[k]).name != ds[i].name {
            assert(unique_by(front, true).contains(front[i]));
            let a = choose|a: int|
                0 <= a < unique_by(front, true).len() && unique_by(front, true)[a] == ds[i];
            assert(unique_by(ds, true)[a] == ds[i]);
        }
    } else {
        if forall|k: int| 0 <= k < i ==> (#[trigger] ds[k]).id != ds[i].id {
            assert(!has_key(front, false, ds[i].id)) by {
                if has_key(front, false, ds[i].id) {
                    let k = choose|k: int|
                        0 <= k < front.len() && key(#[trigger] front[k], false) == ds[i].id;
                    assert(front[k] == ds[k]);
                }
            }
            assert(unique_by(ds, false)[unique_by(front, false).len() as int] == ds[i]);
        }
        if forall|k: int| 0 <= k < i ==> (#[trigger] ds[k]).name != ds[i].name {
            assert(!has_key(front, true, ds[i].name)) by {
                if has_key(front, true, ds[i].name) {
                    let k = choose|k: int|
                        0 <= k < front.len() && key(#[trigger] front[k], true) == ds[i].name;
                    assert(front[k] == ds[k]);
                }
            }
            assert(unique_by(ds, true)[unique_by(front, true).len() as int] == ds[i]);
        }
    }
}

/// What is offered is what the two programs print: the Chromecasts of the one, by id,
/// the sound cards of the other, by id, and its AirPlay receivers, by name. A program
/// that could not be started offers nothing, and does not change what the other offers.
pub proof fn probes_offer_what_was_printed(avahi: Answer, sinks: Answer, other: Answer)
    ensures
        avahi matches Ok(o) ==> outputs_from(avahi, sinks).chromecast == unique_by(
            chromecasts_of(lines_of(o.stdout@), true) + chromecasts_of(lines_of(o.stdout@), false),
            false,
        ),
        sinks matches Ok(o) ==> outputs_from(avahi, sinks).soundcard == unique_by(
            soundcards_of(lines_of(o.stdout@)),
            false,
        ) && outputs_from(avahi, sinks).airplay == unique_by(raop_of(lines_of(o.stdout@)), true),
        avahi is Err ==> outputs_from(avahi, sinks).chromecast.len() == 0,
        sinks is Err ==> outputs_from(avahi, sinks).soundcard.len() == 0 && outputs_from(
            avahi,
            sinks,
        ).airplay.len() == 0,
        outputs_from(avahi, sinks).chromecast == outputs_from(avahi, other).chromecast,
        outputs_from(avahi, sinks).soundcard == outputs_from(other, sinks).soundcard,
        outputs_from(avahi, sinks).airplay == outputs_from(other, sinks).airplay,
{
}

/// A probe asks for the announced Chromecasts and then for the sinks, and offers what the
/// two answers show.
pub proof fn probes_ask_for_both(runs: Seq<Invocation>, out: OutputsData)
    requires
        probed(runs, out),
    ensures
        runs.len() == 2,
        runs[0].program == "avahi-browse"@ && runs[0].args == seq!["-rtp"@, "_googlecast._tcp"@],
        runs[1].program == "pactl"@ && runs[1].args == seq!["list"@, "short"@, "sinks"@],
        runs[0].answer matches Ok(o) ==> out.chromecast == unique_by(chromecasts_in(o.stdout@), false),
        runs[1].answer matches Ok(o) ==> out.soundcard == unique_by(
            soundcards_of(lines_of(o.stdout@)),
            false,
        ) && out.airplay == unique_by(raop_of(lines_of(o.stdout@)), true),
        runs[0].answer is Err ==> out.chromecast.len() == 0,
        runs[1].answer is Err ==> out.soundcard.len() == 0 && out.airplay.len() == 0,
{
}

/// A line that ends with the name of its module is of that module as well.
pub proof fn module_lines_may_end_with_the_name(id: Seq<char>, module: Seq<char>, name: Seq<char>)
    requires
        !id.contains('\t'),
        !module.contains('\t'),
        trimmed(id + seq!['\t'] + module) == id + seq!['\t'] + module,
    ensures
        names_module(id + seq!['\t'] + module, name) <==> name == module,
{
    fields_are_split_off_one_by_one(id, '\t', module, 3);
    fields_are_split_off_one_by_one(module, '\t', module, 2);
}

} // verus!
