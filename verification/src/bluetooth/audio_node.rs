//! Detection of `bluez_input.*` nodes: the real "audio is flowing" signal of a
//! connected A2DP source, read from `pactl list short sources`.
use vstd::prelude::*;
use crate::sys::command::{asked, Answer, CommandRunner, Invocation};
use crate::text::{searching_goes_by_the_characters, texts_part_at_the_first_separator, after_prefix, before, cat2, contains, holds, less, lines, lines_of, order_is_asymmetric, order_is_irreflexive, order_is_total, order_is_transitive, pieces, replace_char, same, split, str_views, strip_prefix, swapped, trim, trimmed, views, words, words_of};

verus! {

/// Node-name prefix of an A2DP source captured by BlueZ.
pub const BLUEZ_INPUT_PREFIX: &'static str = "bluez_input.";

/// The device address that a word encodes, if it is the name of a `bluez_input`
/// node: what stands between the prefix and the next dot, with `:` for `_`.
pub open spec fn node_address(word: Seq<char>) -> Option<Seq<char>> {
    match after_prefix(word, BLUEZ_INPUT_PREFIX@) {
        Some(rest) => if pieces(rest, '.')[0].len() == 0 {
            None
        } else {
            Some(swapped(pieces(rest, '.')[0], '_', ':'))
        },
        None => None,
    }
}

/// The addresses among these words, in their order.
pub open spec fn addresses_of_words(ws: Seq<Seq<char>>) -> Seq<Seq<char>>
    decreases ws.len(),
{
    if ws.len() == 0 {
        Seq::empty()
    } else {
        let head = addresses_of_words(ws.drop_last());
        match node_address(ws.last()) {
            Some(a) => head.push(a),
            None => head,
        }
    }
}

/// The addresses in these lines, in their order.
pub open spec fn addresses_of_lines(ls: Seq<Seq<char>>) -> Seq<Seq<char>>
    decreases ls.len(),
{
    if ls.len() == 0 {
        Seq::empty()
    } else {
        addresses_of_lines(ls.drop_last()) + addresses_of_words(words_of(ls.last()))
    }
}

/// Extract the device addresses of all `bluez_input.<MAC>.*` nodes in a
/// `pactl list short sources` output, in the order of its lines.
pub fn bluez_input_addresses(sources_output: &str) -> (out: Vec<String>)
    ensures
        views(out@) == addresses_of_lines(lines_of(sources_output@)),
{
    let ls = lines(sources_output);
    let ghost lv = views(ls@);
    let mut out: Vec<String> = Vec::new();
    let mut i: usize = 0;
    assert(views(out@) =~= Seq::empty());
    assert(lv.take(0) =~= Seq::empty());
    while i < ls.len()
        invariant
            i <= ls@.len(),
            lv == views(ls@),
            views(out@) == addresses_of_lines(lv.take(i as int)),
        decreases ls@.len() - i,
    {
        assert(lv.take(i as int + 1).drop_last() =~= lv.take(i as int));
        assert(lv.take(i as int + 1).last() == ls@[i as int]@);
        let ws = words(ls[i].as_str());
        let ghost wv = views(ws@);
        let ghost start = views(out@);
        let mut k: usize = 0;
        assert(wv.take(0) =~= Seq::empty());
        assert(start + Seq::<Seq<char>>::empty() =~= start);
        while k < ws.len()
            invariant
                k <= ws@.len(),
                wv == views(ws@),
                views(out@) == start + addresses_of_words(wv.take(k as int)),
            decreases ws@.len() - k,
        {
            let ghost before = out@;
            assert(wv.take(k as int + 1).drop_last() =~= wv.take(k as int));
            assert(wv.take(k as int + 1).last() == ws@[k as int]@);
            if let Some(rest) = strip_prefix(ws[k].as_str(), BLUEZ_INPUT_PREFIX) {
                let parts = split(rest.as_str(), '.');
                assert(views(parts@)[0] == parts@[0]@);
                if !parts[0].as_str().is_empty() {
                    let mac = replace_char(parts[0].as_str(), '_', ':');
                    out.push(mac);
                    assert(views(out@) =~= views(before).push(mac@));
                }
            }
            k = k + 1;
            assert(views(out@) =~= start + addresses_of_words(wv.take(k as int)));
        }
        assert(wv.take(wv.len() as int) =~= wv);
        i = i + 1;
    }
    assert(lv.take(lv.len() as int) =~= lv);
    out
}

/// Whether the texts stand in ascending order, each once.
pub open spec fn ascending(s: Seq<Seq<char>>) -> bool {
    forall|i: int, j: int| 0 <= i < j < s.len() ==> before(#[trigger] s[i], #[trigger] s[j])
}

/// Whether `set` holds what is in `all`, each once, in ascending order.
pub open spec fn is_set_of(set: Seq<Seq<char>>, all: Seq<Seq<char>>) -> bool {
    &&& ascending(set)
    &&& forall|x: Seq<char>| set.contains(x) == #[trigger] all.contains(x)
}

/// Add a text to others in ascending order, unless it is among them.
fn add_once(set: &mut Vec<String>, text: String)
    requires
        ascending(views(old(set)@)),
    ensures
        ascending(views(final(set)@)),
        forall|x: Seq<char>|
            #[trigger] views(final(set)@).contains(x) == (views(old(set)@).contains(x) || x
                == text@),
{
    let ghost s = views(set@);
    let ghost t = text@;
    let mut i: usize = 0;
    while i < set.len() && less(set[i].as_str(), text.as_str())
        invariant
            i <= set@.len(),
            s == views(set@),
            t == text@,
            forall|k: int| 0 <= k < i ==> before(#[trigger] s[k], t),
        decreases set@.len() - i,
    {
        assert(s[i as int] == set@[i as int]@);
        i = i + 1;
    }
    if i < set.len() && same(set[i].as_str(), text.as_str()) {
        assert(s[i as int] == t);
        return;
    }
    proof {
        if i < s.len() {
            assert(s[i as int] == set@[i as int]@);
            order_is_total(s[i as int], t);
            assert forall|k: int| i <= k < s.len() implies before(t, #[trigger] s[k]) by {
                if k > i {
                    order_is_transitive(t, s[i as int], s[k]);
                }
            }
        }
    }
    set.insert(i, text);
    proof {
        let now = views(set@);
        assert(now =~= s.insert(i as int, t));
        assert forall|a: int, b: int| 0 <= a < b < now.len() implies before(
            #[trigger] now[a],
            #[trigger] now[b],
        ) by {
            let x = if a < i { a } else { a - 1 };
            let y = if b < i { b } else { b - 1 };
            if a != i {
                assert(now[a] == s[x]);
            }
            if b != i {
                assert(now[b] == s[y]);
            }
        }
        assert forall|x: Seq<char>| #[trigger] now.contains(x) == (s.contains(x) || x == t) by {
            if now.contains(x) {
                let k = choose|k: int| 0 <= k < now.len() && now[k] == x;
                if k < i {
                    assert(s[k] == x);
                } else if k > i {
                    assert(s[k - 1] == x);
                }
            }
            if s.contains(x) {
                let k = choose|k: int| 0 <= k < s.len() && s[k] == x;
                if k < i {
                    assert(now[k] == x);
                } else {
                    assert(now[k + 1] == x);
                }
            }
            assert(now[i as int] == t);
        }
    }
}

/// The set of these texts.
fn set_of(all: &Vec<String>) -> (set: Vec<String>)
    ensures
        is_set_of(views(set@), views(all@)),
{
    let ghost av = views(all@);
    let mut set: Vec<String> = Vec::new();
    let mut i: usize = 0;
    while i < all.len()
        invariant
            i <= all@.len(),
            av == views(all@),
            is_set_of(views(set@), av.take(i as int)),
        decreases all@.len() - i,
    {
        let ghost earlier = views(set@);
        add_once(&mut set, all[i].clone());
        i = i + 1;
        proof {
            let now = av.take(i as int);
            let head = av.take(i as int - 1);
            assert(now =~= head.push(av[i as int - 1]));
            assert forall|x: Seq<char>| views(set@).contains(x) == #[trigger] now.contains(x) by {
                assert(earlier.contains(x) == head.contains(x));
                if now.contains(x) {
                    let k = choose|k: int| 0 <= k < now.len() && now[k] == x;
                    if k < i - 1 {
                        assert(head[k] == x);
                    }
                }
                if head.contains(x) {
                    let k = choose|k: int| 0 <= k < head.len() && head[k] == x;
                    assert(now[k] == x);
                }
                assert(now[i as int - 1] == av[i as int - 1]);
                assert(av[i as int - 1] == all@[i as int - 1]@);
            }
        }
    }
    assert(av.take(av.len() as int) =~= av);
    set
}

/// A set can be listed in one way only.
pub proof fn sets_are_listed_in_one_way(a: Seq<Seq<char>>, b: Seq<Seq<char>>, all: Seq<Seq<char>>)
    requires
        is_set_of(a, all),
        is_set_of(b, all),
    ensures
        a == b,
{
    assert forall|x: Seq<char>| #[trigger] a.contains(x) == b.contains(x) by {
        assert(a.contains(x) == all.contains(x));
    }
    lemma_same_set(a, b);
}

proof fn lemma_same_set(a: Seq<Seq<char>>, b: Seq<Seq<char>>)
    requires
        ascending(a),
        ascending(b),
        forall|x: Seq<char>| #[trigger] a.contains(x) == b.contains(x),
    ensures
        a == b,
    decreases a.len(),
{
    if a.len() == 0 {
        if b.len() > 0 {
            assert(b.contains(b[0]));
            assert(a.contains(b[0]));
        }
    } else {
        assert(a.contains(a.last()));
        assert(b.contains(a.last()));
        let i = choose|i: int| 0 <= i < b.len() && b[i] == a.last();
        assert(b.contains(b.last()));
        assert(a.contains(b.last()));
        let j = choose|j: int| 0 <= j < a.len() && a[j] == b.last();
        if a.last() != b.last() {
            assert(before(b[i], b[b.len() - 1]));
            assert(before(a[j], a[a.len() - 1]));
            order_is_asymmetric(a.last(), b.last());
        }
        let c = a.drop_last();
        let d = b.drop_last();
        assert forall|x: Seq<char>| #[trigger] c.contains(x) == d.contains(x) by {
            order_is_irreflexive(x);
            if c.contains(x) {
                let k = choose|k: int| 0 <= k < c.len() && c[k] == x;
                assert(a[k] == x);
                assert(before(a[k], a[a.len() - 1]));
                assert(a.contains(x));
                let m = choose|m: int| 0 <= m < b.len() && b[m] == x;
                assert(d[m] == x);
            }
            if d.contains(x) {
                let k = choose|k: int| 0 <= k < d.len() && d[k] == x;
                assert(b[k] == x);
                assert(before(b[k], b[b.len() - 1]));
                assert(b.contains(x));
                assert(a.contains(x));
                let m = choose|m: int| 0 <= m < a.len() && a[m] == x;
                assert(c[m] == x);
            }
        }
        lemma_same_set(c, d);
        assert(a =~= c.push(a.last()));
        assert(b =~= d.push(b.last()));
    }
}

/// Whether `pactl list short sources` output contains a `bluez_input.*` node.
pub fn has_bluez_input_node(sources_output: &str) -> (r: bool)
    ensures
        r == exists|k: int|
            0 <= k < lines_of(sources_output@).len() && holds(
                #[trigger] lines_of(sources_output@)[k],
                BLUEZ_INPUT_PREFIX@,
            ),
{
    let ls = lines(sources_output);
    let ghost lv = views(ls@);
    let mut i: usize = 0;
    while i < ls.len()
        invariant
            i <= ls@.len(),
            lv == views(ls@),
            lv == lines_of(sources_output@),
            forall|k: int| 0 <= k < i ==> !holds(#[trigger] lv[k], BLUEZ_INPUT_PREFIX@),
        decreases ls@.len() - i,
    {
        assert(lv[i as int] == ls@[i as int]@);
        if contains(ls[i].as_str(), BLUEZ_INPUT_PREFIX) {
            return true;
        }
        i = i + 1;
    }
    false
}

/// The output of `pactl list short sources`, or what failed.
pub open spec fn sources_result(answer: Answer) -> Result<Seq<char>, Seq<char>> {
    match answer {
        Ok(o) => if o.ok() {
            Ok(o.stdout@)
        } else {
            Err("pactl list short sources failed: "@ + trimmed(o.stderr@))
        },
        Err(e) => Err("failed to run pactl: "@ + e@),
    }
}

/// Whether a run listed the sources.
pub open spec fn listed_sources(run: Invocation) -> bool {
    asked(run, "pactl"@, seq!["list"@, "short"@, "sources"@])
}

/// Run `pactl list short sources`.
fn list_sources<R: CommandRunner>(runner: &mut R) -> (r: Result<String, String>)
    ensures
        exists|run: Invocation|
            final(runner).trace() == old(runner).trace().push(run) && #[trigger] listed_sources(run)
                && match (r, sources_result(run.answer)) {
                (Ok(a), Ok(b)) => a@ == b,
                (Err(a), Err(b)) => a@ == b,
                _ => false,
            },
{
    let args: [&str; 3] = ["list", "short", "sources"];
    let answer = runner.run("pactl", &args);
    let ghost run = Invocation { program: "pactl"@, args: str_views((&args)@), answer };
    assert(run.args =~= seq!["list"@, "short"@, "sources"@]);
    assert(listed_sources(run));
    match answer {
        Ok(o) => if o.success() {
            Ok(o.stdout)
        } else {
            Err(cat2("pactl list short sources failed: ", trim(o.stderr.as_str()).as_str()))
        },
        Err(e) => Err(cat2("failed to run pactl: ", e.as_str())),
    }
}

/// Run `pactl list short sources` and return the set of the addresses of the devices
/// that currently have a `bluez_input.*` node (the audio-active set): each once, in
/// ascending order.
pub fn probe_bluez_input_addresses<R: CommandRunner>(runner: &mut R) -> (r: Result<
    Vec<String>,
    String,
>)
    ensures
        exists|run: Invocation|
            final(runner).trace() == old(runner).trace().push(run) && #[trigger] listed_sources(run)
                && match (r, sources_result(run.answer)) {
                (Ok(a), Ok(b)) => is_set_of(views(a@), addresses_of_lines(lines_of(b))),
                (Err(a), Err(b)) => a@ == b,
                _ => false,
            },
{
    match list_sources(runner) {
        Ok(out) => Ok(set_of(&bluez_input_addresses(out.as_str()))),
        Err(e) => Err(e),
    }
}

/// Whether some line of a text holds the node prefix.
pub open spec fn has_node(text: Seq<char>) -> bool {
    exists|k: int|
        0 <= k < lines_of(text).len() && holds(#[trigger] lines_of(text)[k], BLUEZ_INPUT_PREFIX@)
}

/// Run `pactl list short sources` and report whether a `bluez_input.*` node is
/// present.
pub fn probe_bluez_input<R: CommandRunner>(runner: &mut R) -> (r: Result<bool, String>)
    ensures
        exists|run: Invocation|
            final(runner).trace() == old(runner).trace().push(run) && #[trigger] listed_sources(run)
                && match (r, sources_result(run.answer)) {
                (Ok(a), Ok(b)) => a == has_node(b),
                (Err(a), Err(b)) => a@ == b,
                _ => false,
            },
{
    match list_sources(runner) {
        Ok(out) => Ok(has_bluez_input_node(out.as_str())),
        Err(e) => Err(e),
    }
}

// ── Laws ─────────────────────────────────────────────────────────────────────

/// The name of a node gives the address of its device back: whatever follows the address
/// after a dot, and for every address without dots and underscores.
pub proof fn nodes_give_the_address_back(address: Seq<char>, rest: Seq<char>)
    requires
        address.len() > 0,
        !address.contains('.'),
        !address.contains('_'),
    ensures
        node_address("bluez_input."@ + swapped(address, ':', '_') + seq!['.'] + rest) == Some(address),
        node_address("bluez_input."@ + swapped(address, ':', '_')) == Some(address),
{
    let p = "bluez_input."@;
    let mac = swapped(address, ':', '_');
    assert(!mac.contains('.')) by {
        if mac.contains('.') {
            let k = choose|k: int| 0 <= k < mac.len() && mac[k] == '.';
            assert(address[k] == '.');
            assert(address.contains('.'));
        }
    }
    texts_part_at_the_first_separator(mac, '.', rest);
    let tail = mac + seq!['.'] + rest;
    assert(p + mac + seq!['.'] + rest =~= p + tail);
    assert((p + tail).take(p.len() as int) =~= p);
    assert((p + tail).skip(p.len() as int) =~= tail);
    assert((p + mac).take(p.len() as int) =~= p);
    assert((p + mac).skip(p.len() as int) =~= mac);
    assert forall|k: int| 0 <= k < address.len() implies swapped(mac, '_', ':')[k] == address[k] by {
        assert(address.contains(address[k]));
    }
    assert(swapped(mac, '_', ':') =~= address);
    assert(pieces(tail, '.')[0] == mac);
    assert(pieces(mac, '.')[0] == mac);
}

/// A word that does not start with the prefix of these nodes has no address.
pub proof fn other_nodes_have_no_address(word: Seq<char>)
    ensures
        node_address(word) is Some ==> exists|r: Seq<char>| word == #[trigger] ("bluez_input."@ + r),
        node_address(word) matches Some(a) ==> a.len() > 0,
{
    searching_goes_by_the_characters(word, "bluez_input."@);
}

/// An address is listed exactly where some word of some line is the name of a node that
/// has it, at whatever position.
pub proof fn flowing_addresses_are_listed(ls: Seq<Seq<char>>, address: Seq<char>)
    ensures
        addresses_of_lines(ls).contains(address) <==> exists|k: int, j: int|
            0 <= k < ls.len() && 0 <= j < words_of(ls[k]).len() && node_address(
                #[trigger] words_of(ls[k])[j],
            ) == Some(address),
    decreases ls.len(),
{
    let all = addresses_of_lines(ls);
    if ls.len() > 0 {
        let front = ls.drop_last();
        let n = ls.len() - 1;
        let head = addresses_of_lines(front);
        let tail = addresses_of_words(words_of(ls[n]));
        flowing_addresses_are_listed(front, address);
        lemma_addresses_of_words(words_of(ls[n]), address);
        assert(all == head + tail);
        if head.contains(address) {
            let i = choose|i: int| 0 <= i < head.len() && head[i] == address;
            assert(all[i] == address);
            let (k, j) = choose|k: int, j: int|
                0 <= k < front.len() && 0 <= j < words_of(front[k]).len() && node_address(
                    #[trigger] words_of(front[k])[j],
                ) == Some(address);
            assert(ls[k] == front[k]);
            assert(node_address(words_of(ls[k])[j]) == Some(address));
        }
        if tail.contains(address) {
            let i = choose|i: int| 0 <= i < tail.len() && tail[i] == address;
            assert(all[head.len() + i] == address);
            let j = choose|j: int|
                0 <= j < words_of(ls[n]).len() && node_address(#[trigger] words_of(ls[n])[j])
                    == Some(address);
            assert(node_address(words_of(ls[n])[j]) == Some(address));
        }
        if all.contains(address) {
            let i = choose|i: int| 0 <= i < all.len() && all[i] == address;
            if i < head.len() {
                assert(head[i] == address);
            } else {
                assert(tail[i - head.len()] == address);
            }
        }
        if exists|k: int, j: int|
            0 <= k < ls.len() && 0 <= j < words_of(ls[k]).len() && node_address(
                #[trigger] words_of(ls[k])[j],
            ) == Some(address) {
            let (k, j) = choose|k: int, j: int|
                0 <= k < ls.len() && 0 <= j < words_of(ls[k]).len() && node_address(
                    #[trigger] words_of(ls[k])[j],
                ) == Some(address);
            if k < n {
                assert(front[k] == ls[k]);
                assert(node_address(words_of(front[k])[j]) == Some(address));
            }
        }
    }
}

proof fn lemma_addresses_of_words(ws: Seq<Seq<char>>, address: Seq<char>)
    ensures
        addresses_of_words(ws).contains(address) <==> exists|j: int|
            0 <= j < ws.len() && node_address(#[trigger] ws[j]) == Some(address),
    decreases ws.len(),
{
    let all = addresses_of_words(ws);
    if ws.len() > 0 {
        let front = ws.drop_last();
        let n = ws.len() - 1;
        let head = addresses_of_words(front);
        lemma_addresses_of_words(front, address);
        if head.contains(address) {
            let i = choose|i: int| 0 <= i < head.len() && head[i] == address;
            assert(all[i] == address);
            let j = choose|j: int|
                0 <= j < front.len() && node_address(#[trigger] front[j]) == Some(address);
            assert(ws[j] == front[j]);
        }
        if node_address(ws[n]) == Some(address) {
            assert(all[head.len() as int] == address);
        }
        if exists|j: int| 0 <= j < ws.len() && node_address(#[trigger] ws[j]) == Some(address) {
            let j = choose|j: int| 0 <= j < ws.len() && node_address(#[trigger] ws[j]) == Some(address);
            if j < n {
                assert(front[j] == ws[j]);
            }
        }
        if all.contains(address) && !head.contains(address) {
            let i = choose|i: int| 0 <= i < all.len() && all[i] == address;
            if i < head.len() {
                assert(head[i] == address);
            }
            assert(node_address(ws[n]) == Some(address));
        }
    }
}

/// The sources are what was printed with success; otherwise the failure is told.
pub proof fn only_printed_sources_count(answer: Answer)
    ensures
        sources_result(answer) is Ok <==> answer is Ok && answer->Ok_0.status == 0,
        answer is Ok && answer->Ok_0.status == 0 ==> sources_result(answer)->Ok_0
            == answer->Ok_0.stdout@,
{
}

/// A set holds each of its texts once, in ascending order, and has what all of them have
/// and nothing more.
pub proof fn sets_hold_each_text_once(set: Seq<Seq<char>>, all: Seq<Seq<char>>, i: int, j: int)
    requires
        is_set_of(set, all),
        0 <= i < j < set.len(),
    ensures
        set[i] != set[j],
        before(set[i], set[j]),
        all.contains(set[i]),
        forall|k: int| 0 <= k < all.len() ==> set.contains(#[trigger] all[k]),
{
    assert(before(set[i], set[j]));
    order_is_irreflexive(set[i]);
    assert(set.contains(set[i]));
    assert(all.contains(set[i]));
    assert forall|k: int| 0 <= k < all.len() implies set.contains(#[trigger] all[k]) by {
        assert(all.contains(all[k]));
    }
}

/// There is a node exactly where some line holds the prefix of these nodes, at whatever
/// place.
pub proof fn nodes_are_seen_in_any_line(text: Seq<char>)
    ensures
        has_node(text) <==> exists|k: int, a: Seq<char>, b: Seq<char>|
            0 <= k < lines_of(text).len() && #[trigger] lines_of(text)[k] == #[trigger] (a
                + "bluez_input."@ + b),
{
    let ls = lines_of(text);
    if has_node(text) {
        let k = choose|k: int| 0 <= k < ls.len() && holds(#[trigger] ls[k], BLUEZ_INPUT_PREFIX@);
        searching_goes_by_the_characters(ls[k], "bluez_input."@);
        let (a, b) = choose|a: Seq<char>, b: Seq<char>|
            ls[k] == #[trigger] (a + "bluez_input."@ + b);
        assert(ls[k] == a + "bluez_input."@ + b);
    }
    if exists|k: int, a: Seq<char>, b: Seq<char>|
        0 <= k < ls.len() && #[trigger] ls[k] == #[trigger] (a + "bluez_input."@ + b) {
        let (k, a, b) = choose|k: int, a: Seq<char>, b: Seq<char>|
            0 <= k < ls.len() && #[trigger] ls[k] == #[trigger] (a + "bluez_input."@ + b);
        searching_goes_by_the_characters(ls[k], "bluez_input."@);
    }
}

/// The sources are listed by `pactl list short sources`.
pub proof fn sources_are_listed_by_pactl(run: Invocation)
    ensures
        listed_sources(run) <==> run.program == "pactl"@ && run.args == seq![
            "list"@,
            "short"@,
            "sources"@,
        ],
{
}

} // verus!
