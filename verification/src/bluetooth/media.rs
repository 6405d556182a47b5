//! Now-playing media: which player is followed, what is published of it, how its
//! cover art is kept, and when the D-Bus connection is given up.
use vstd::prelude::*;
use crate::bluetooth::avrcp::{real_duration, real_text, sanitize_duration_ms, sanitize_text, DbusHealth, PlaybackStatus, TrackMetadata, DBUS_FAILURE_THRESHOLD};
use crate::state::MediaInfo;
use crate::text::{
    before, chars_of, clone_opt, first_at, index_of, is_some_text, less, opt_str_view, opt_view,
    order_is_irreflexive, order_is_total, order_is_transitive, same, starts, starts_with,
    string_of, trimming_takes_white_space_off_the_ends, white, lemma_first_at,
};

verus! {

/// How long a call may take, in seconds.
pub const DBUS_TIMEOUT_SECS: u64 = 5;

/// How long to wait before connecting again, in seconds.
pub const RECONNECT_BACKOFF_SECS: u64 = 2;

/// How often the players are looked at, in seconds.
pub const PLAYER_POLL_SECS: u64 = 3;

pub const MEDIAPLAYER1_IFACE: &'static str = "org.bluez.MediaPlayer1";

pub const MEDIATRANSPORT1_IFACE: &'static str = "org.bluez.MediaTransport1";

pub const BLUEZ_DEST: &'static str = "org.bluez";

/// Build what the web UI shows from the AVRCP model and a current position.
pub fn media_info_from(
    status: PlaybackStatus,
    track: &TrackMetadata,
    position_ms: Option<u32>,
) -> (info: MediaInfo)
    ensures
        info.status@ == status.wire(),
        info == (MediaInfo {
            status: info.status,
            title: track.title,
            artist: track.artist,
            album: track.album,
            duration_ms: track.duration_ms,
            position_ms,
            artwork_url: None,
        }),
{
    MediaInfo {
        status: status.as_str().to_owned(),
        title: clone_opt(&track.title),
        artist: clone_opt(&track.artist),
        album: clone_opt(&track.album),
        duration_ms: track.duration_ms,
        position_ms,
        artwork_url: None,
    }
}

// ── Players ──────────────────────────────────────────────────────────────────

/// The path up to and including its first device segment.
pub open spec fn prefix_of(path: Seq<char>) -> Option<Seq<char>>
    decreases path.len(),
{
    let i = first_at(path, '/') as int;
    if starts(path.take(i), "dev_"@) {
        Some(path.take(i))
    } else if i >= path.len() {
        None
    } else {
        match prefix_of(path.skip(i + 1)) {
            Some(p) => Some(path.take(i + 1) + p),
            None => None,
        }
    }
}

/// Extract the `…/dev_XX_XX_XX_XX_XX_XX` prefix from a BlueZ object path: of a
/// player (`…/dev_…/playerN`) or a transport (`…/dev_…/sepM/fdK`). `None` if
/// there is no `dev_` segment.
pub fn device_prefix(path: &str) -> (out: Option<String>)
    ensures
        opt_view(out) == prefix_of(path@),
{
    let cs = chars_of(path);
    let mut start: usize = 0;
    assert(cs@.skip(0) =~= cs@);
    assert(cs@.take(0) =~= Seq::empty());
    loop
        invariant
            start <= cs@.len(),
            cs@ == path@,
            prefix_of(path@) == (match prefix_of(cs@.skip(start as int)) {
                Some(p) => Some(cs@.take(start as int) + p),
                None => None,
            }),
        decreases cs@.len() - start,
    {
        let end: usize = index_of(&cs, start, '/');
        let ghost tail = cs@.skip(start as int);
        let segment = string_of(&cs, start, end);
        assert(tail.take(end - start) =~= segment@);
        if starts_with(segment.as_str(), "dev_") {
            let out = string_of(&cs, 0, end);
            assert(out@ =~= cs@.take(start as int) + segment@);
            return Some(out);
        }
        if end == cs.len() {
            return None;
        }
        proof {
            let n = end - start + 1;
            assert(tail.skip(n) =~= cs@.skip(end as int + 1));
            assert(cs@.take(start as int) + tail.take(n) =~= cs@.take(end as int + 1));
            if let Some(p) = prefix_of(cs@.skip(end as int + 1)) {
                assert(cs@.take(start as int) + (tail.take(n) + p) =~= cs@.take(end as int + 1) + p);
            }
        }
        start = end + 1;
    }
}

/// The prefix of a path ends with the first of its segments that names a device,
/// wherever that stands; there is none only where no segment does.
pub proof fn prefixes_end_with_the_first_device(path: Seq<char>)
    ensures
        prefix_of(path) is Some ==> exists|s: int, e: int|
            #![trigger path.subrange(s, e)]
            {
                &&& 0 <= s && s + 4 <= e <= path.len()
                &&& prefix_of(path) == Some(path.take(e))
                &&& s == 0 || path[s - 1] == '/'
                &&& path.subrange(s, s + 4) == "dev_"@
                &&& !path.subrange(s, e).contains('/')
                &&& e == path.len() || path[e] == '/'
                &&& forall|t: int|
                    0 <= t < s && (t == 0 || path[t - 1] == '/') ==> #[trigger] path.subrange(
                        t,
                        t + 4,
                    ) != "dev_"@
            },
        prefix_of(path) is None ==> forall|t: int|
            0 <= t && t + 4 <= path.len() && (t == 0 || path[t - 1] == '/')
                ==> #[trigger] path.subrange(t, t + 4) != "dev_"@,
{
    if prefix_of(path) is Some {
        let (s, e) = lemma_prefix_found(path);
        let name = path.subrange(s, e);
        if name.contains('/') {
            let k = choose|k: int| 0 <= k < name.len() && name[k] == '/';
            assert(name[k] == path[s + k]);
        }
    } else {
        lemma_no_prefix(path);
    }
}

proof fn lemma_prefix_found(path: Seq<char>) -> (r: (int, int))
    requires
        prefix_of(path) is Some,
    ensures
        0 <= r.0 && r.0 + 4 <= r.1 <= path.len(),
        prefix_of(path) == Some(path.take(r.1)),
        r.0 == 0 || path[r.0 - 1] == '/',
        path.subrange(r.0, r.0 + 4) == "dev_"@,
        forall|k: int| r.0 <= k < r.1 ==> #[trigger] path[k] != '/',
        r.1 == path.len() || path[r.1] == '/',
        forall|t: int|
            0 <= t < r.0 && (t == 0 || path[t - 1] == '/') ==> #[trigger] path.subrange(t, t + 4)
                != "dev_"@,
    decreases path.len(),
{
    reveal_strlit("dev_");
    lemma_first_at(path, '/');
    let i = first_at(path, '/') as int;
    if starts(path.take(i), "dev_"@) {
        assert(path.subrange(0, 4) =~= path.take(i).take(4));
        (0, i)
    } else {
        let rest = path.skip(i + 1);
        let (s, e) = lemma_prefix_found(rest);
        assert(path.take(i + 1) + rest.take(e) =~= path.take(e + i + 1));
        assert(rest.subrange(s, s + 4) =~= path.subrange(s + i + 1, s + i + 1 + 4));
        assert forall|k: int| s + i + 1 <= k < e + i + 1 implies #[trigger] path[k] != '/' by {
            assert(rest[k - i - 1] == path[k]);
        }
        assert forall|t: int|
            0 <= t < s + i + 1 && (t == 0 || path[t - 1] == '/') implies #[trigger] path.subrange(
            t,
            t + 4,
        ) != "dev_"@ by {
            if t <= i {
                lemma_first_segment(path);
            } else {
                assert(path.subrange(t, t + 4) =~= rest.subrange(t - i - 1, t - i - 1 + 4));
            }
        }
        (s + i + 1, e + i + 1)
    }
}

proof fn lemma_first_segment(path: Seq<char>)
    requires
        !starts(path.take(first_at(path, '/') as int), "dev_"@),
        path.len() >= 4,
    ensures
        path.subrange(0, 4) != "dev_"@,
{
    reveal_strlit("dev_");
    lemma_first_at(path, '/');
    let i = first_at(path, '/') as int;
    if path.subrange(0, 4) == "dev_"@ {
        if i < 4 {
            assert(path.subrange(0, 4)[i] == '/');
        } else {
            assert(path.take(i).take(4) =~= path.subrange(0, 4));
        }
    }
}

proof fn lemma_no_prefix(path: Seq<char>)
    requires
        prefix_of(path) is None,
    ensures
        forall|t: int|
            0 <= t && t + 4 <= path.len() && (t == 0 || path[t - 1] == '/')
                ==> #[trigger] path.subrange(t, t + 4) != "dev_"@,
    decreases path.len(),
{
    lemma_first_at(path, '/');
    let i = first_at(path, '/') as int;
    if i < path.len() {
        lemma_no_prefix(path.skip(i + 1));
    }
    assert forall|t: int|
        0 <= t && t + 4 <= path.len() && (t == 0 || path[t - 1] == '/') implies #[trigger] path.subrange(
        t,
        t + 4,
    ) != "dev_"@ by {
        if t <= i {
            lemma_first_segment(path);
        } else {
            let rest = path.skip(i + 1);
            assert(path.subrange(t, t + 4) =~= rest.subrange(t - i - 1, t - i - 1 + 4));
        }
    }
}

/// A player that could be followed.
#[derive(Debug, PartialEq, Eq)]
pub struct PlayerCandidate {
    pub path: String,
    /// The candidate's device has an active transport.
    pub device_active: bool,
    /// The player is playing or paused.
    pub playing: bool,
}

/// Whether some candidate's device has an active transport.
pub open spec fn any_active(cs: Seq<PlayerCandidate>) -> bool {
    exists|i: int| 0 <= i < cs.len() && (#[trigger] cs[i]).device_active
}

/// Whether some candidate is playing or paused.
pub open spec fn any_playing(cs: Seq<PlayerCandidate>) -> bool {
    exists|i: int| 0 <= i < cs.len() && (#[trigger] cs[i]).playing
}

/// Whether a candidate is of the best tier that is not empty: an active transport,
/// else a player that plays or pauses, else any player.
pub open spec fn qualifies(cs: Seq<PlayerCandidate>, c: PlayerCandidate) -> bool {
    if any_active(cs) {
        c.device_active
    } else if any_playing(cs) {
        c.playing
    } else {
        true
    }
}

/// Whether the player of that path qualifies.
pub open spec fn in_pool(cs: Seq<PlayerCandidate>, path: Seq<char>) -> bool {
    exists|i: int| 0 <= i < cs.len() && (#[trigger] cs[i]).path@ == path && qualifies(cs, cs[i])
}

/// Whether `out` is the player to follow: none where there are no candidates; the
/// current one as long as it qualifies; else the one with the least path among
/// those that qualify.
pub open spec fn chosen(
    cs: Seq<PlayerCandidate>,
    current: Option<Seq<char>>,
    out: Option<Seq<char>>,
) -> bool {
    match out {
        None => cs.len() == 0,
        Some(p) => in_pool(cs, p) && (if current is Some && in_pool(cs, current->0) {
            p == current->0
        } else {
            forall|q: Seq<char>| in_pool(cs, q) ==> !#[trigger] before(q, p)
        }),
    }
}

fn has_active(cs: &Vec<PlayerCandidate>) -> (r: bool)
    ensures
        r == any_active(cs@),
{
    let mut i: usize = 0;
    while i < cs.len()
        invariant
            i <= cs@.len(),
            forall|k: int| 0 <= k < i ==> !(#[trigger] cs@[k]).device_active,
        decreases cs@.len() - i,
    {
        if cs[i].device_active {
            return true;
        }
        i = i + 1;
    }
    false
}

fn has_playing(cs: &Vec<PlayerCandidate>) -> (r: bool)
    ensures
        r == any_playing(cs@),
{
    let mut i: usize = 0;
    while i < cs.len()
        invariant
            i <= cs@.len(),
            forall|k: int| 0 <= k < i ==> !(#[trigger] cs@[k]).playing,
        decreases cs@.len() - i,
    {
        if cs[i].playing {
            return true;
        }
        i = i + 1;
    }
    false
}

/// Pick which player to follow. BlueZ returns its objects in no particular order,
/// so the choice goes by the path; and two devices that stream at the same time
/// do not make it go back and forth, because the current player is kept as long as
/// it qualifies.
pub fn select_player(candidates: Vec<PlayerCandidate>, current: Option<&str>) -> (out: Option<String>)
    ensures
        chosen(candidates@, opt_str_view(current), opt_view(out)),
{
    let active = has_active(&candidates);
    let playing = has_playing(&candidates);
    let ghost cs = candidates@;
    let mut best: Option<String> = None;
    let mut keep = false;
    let mut i: usize = 0;
    while i < candidates.len()
        invariant
            i <= candidates@.len(),
            cs == candidates@,
            active == any_active(cs),
            playing == any_playing(cs),
            keep == (current is Some && exists|k: int|
                0 <= k < i && (#[trigger] cs[k]).path@ == current->0@ && qualifies(cs, cs[k])),
            best is Some ==> in_pool(cs, best->0@),
            best is Some ==> forall|k: int|
                0 <= k < i && qualifies(cs, #[trigger] cs[k]) ==> !before(
                    cs[k].path@,
                    best->0@,
                ),
            best is None ==> forall|k: int| 0 <= k < i ==> !qualifies(cs, #[trigger] cs[k]),
        decreases candidates@.len() - i,
    {
        let c = &candidates[i];
        assert(*c == cs[i as int]);
        let fits = if active {
            c.device_active
        } else if playing {
            c.playing
        } else {
            true
        };
        assert(fits == qualifies(cs, cs[i as int]));
        if fits {
            if let Some(cur) = current {
                if same(c.path.as_str(), cur) {
                    keep = true;
                }
            }
            let better = match &best {
                Some(b) => less(c.path.as_str(), b.as_str()),
                None => true,
            };
            if better {
                proof {
                    order_is_irreflexive(c.path@);
                    if let Some(b) = best {
                        assert forall|k: int| 0 <= k < i && qualifies(cs, #[trigger] cs[k])
                            implies !before(cs[k].path@, c.path@) by {
                            if before(cs[k].path@, c.path@) {
                                order_is_transitive(cs[k].path@, c.path@, b@);
                            }
                        }
                    }
                }
                best = Some(c.path.clone());
            }
        }
        i = i + 1;
    }
    if keep {
        if let Some(cur) = current {
            return Some(cur.to_owned());
        }
    }
    proof {
        if cs.len() > 0 {
            lemma_pool_not_empty(cs);
        }
    }
    best
}

proof fn lemma_pool_not_empty(cs: Seq<PlayerCandidate>)
    requires
        cs.len() > 0,
    ensures
        exists|i: int| 0 <= i < cs.len() && qualifies(cs, #[trigger] cs[i]),
{
    if any_active(cs) {
        let i = choose|i: int| 0 <= i < cs.len() && (#[trigger] cs[i]).device_active;
        assert(qualifies(cs, cs[i]));
    } else if any_playing(cs) {
        let i = choose|i: int| 0 <= i < cs.len() && (#[trigger] cs[i]).playing;
        assert(qualifies(cs, cs[i]));
    } else {
        assert(qualifies(cs, cs[0]));
    }
}

/// The choice does not depend on the order in which the candidates are listed:
/// two lists of the same candidates give the same player.
pub proof fn the_choice_ignores_the_order(
    a: Seq<PlayerCandidate>,
    b: Seq<PlayerCandidate>,
    current: Option<Seq<char>>,
    p: Option<Seq<char>>,
    q: Option<Seq<char>>,
)
    requires
        forall|c: PlayerCandidate| a.contains(c) == b.contains(c),
        chosen(a, current, p),
        chosen(b, current, q),
    ensures
        p == q,
{
    lemma_same_pool(a, b);
    lemma_same_pool(b, a);
    if a.len() > 0 {
        assert(a.contains(a[0]));
        assert(b.contains(a[0]));
    }
    if b.len() > 0 {
        assert(b.contains(b[0]));
        assert(a.contains(b[0]));
    }
    if p is Some && q is Some {
        order_is_total(p->0, q->0);
    }
}

proof fn lemma_same_pool(a: Seq<PlayerCandidate>, b: Seq<PlayerCandidate>)
    requires
        forall|c: PlayerCandidate| a.contains(c) == b.contains(c),
    ensures
        any_active(a) ==> any_active(b),
        any_playing(a) ==> any_playing(b),
        any_active(a) == any_active(b) && any_playing(a) == any_playing(b) ==> forall|x: Seq<char>|
            in_pool(a, x) ==> in_pool(b, x),
{
    if any_active(a) {
        let i = choose|i: int| 0 <= i < a.len() && (#[trigger] a[i]).device_active;
        assert(b.contains(a[i]));
        let j = choose|j: int| 0 <= j < b.len() && b[j] == a[i];
        assert(b[j].device_active);
    }
    if any_playing(a) {
        let i = choose|i: int| 0 <= i < a.len() && (#[trigger] a[i]).playing;
        assert(b.contains(a[i]));
        let j = choose|j: int| 0 <= j < b.len() && b[j] == a[i];
        assert(b[j].playing);
    }
    if any_active(a) == any_active(b) && any_playing(a) == any_playing(b) {
        assert forall|x: Seq<char>| in_pool(a, x) implies in_pool(b, x) by {
            let i = choose|i: int|
                0 <= i < a.len() && (#[trigger] a[i]).path@ == x && qualifies(a, a[i]);
            assert(b.contains(a[i]));
            let j = choose|j: int| 0 <= j < b.len() && b[j] == a[i];
            assert(b[j].path@ == x && qualifies(b, b[j]));
        }
    }
}

/// A player that is followed and still qualifies is not left for another one.
pub proof fn the_choice_is_sticky(
    cs: Seq<PlayerCandidate>,
    current: Seq<char>,
    out: Option<Seq<char>>,
)
    requires
        chosen(cs, Some(current), out),
        in_pool(cs, current),
    ensures
        out == Some(current),
{
    let i = choose|i: int|
        0 <= i < cs.len() && (#[trigger] cs[i]).path@ == current && qualifies(cs, cs[i]);
}

/// An object on the bus, as far as the choice of a player goes.
#[derive(Debug, PartialEq, Eq)]
pub struct BusObject {
    pub path: String,
    /// The `State` of its media transport, if it is one.
    pub transport_state: Option<String>,
    /// Whether it is a media player.
    pub is_player: bool,
    /// The `Status` of the player.
    pub status: Option<String>,
}

/// Whether an object is the active transport of the device with that prefix.
pub open spec fn is_active_transport(o: BusObject, prefix: Seq<char>) -> bool {
    opt_view(o.transport_state) == Some("active"@) && prefix_of(o.path@) == Some(prefix)
}

/// Whether the device with that prefix has an active transport.
pub open spec fn device_streams(objects: Seq<BusObject>, prefix: Seq<char>) -> bool {
    exists|i: int| 0 <= i < objects.len() && is_active_transport(#[trigger] objects[i], prefix)
}

/// What makes a player of these objects a candidate.
pub open spec fn is_candidate(objects: Seq<BusObject>, o: BusObject, c: PlayerCandidate) -> bool {
    &&& c.path == o.path
    &&& c.device_active == (prefix_of(o.path@) is Some && device_streams(
        objects,
        prefix_of(o.path@)->0,
    ))
    &&& c.playing == (opt_view(o.status) == Some("playing"@) || opt_view(o.status) == Some(
        "paused"@,
    ))
}

/// The players among the objects.
pub open spec fn players(objects: Seq<BusObject>) -> Seq<BusObject> {
    objects.filter(|o: BusObject| o.is_player)
}

/// Whether these are the candidates among the objects.
pub open spec fn are_candidates(objects: Seq<BusObject>, cs: Seq<PlayerCandidate>) -> bool {
    &&& cs.len() == players(objects).len()
    &&& forall|i: int|
        0 <= i < cs.len() ==> is_candidate(objects, players(objects)[i], #[trigger] cs[i])
}

fn streams(objects: &[BusObject], prefix: &str) -> (r: bool)
    ensures
        r == device_streams(objects@, prefix@),
{
    let mut i: usize = 0;
    while i < objects.len()
        invariant
            i <= objects@.len(),
            forall|k: int| 0 <= k < i ==> !is_active_transport(#[trigger] objects@[k], prefix@),
        decreases objects@.len() - i,
    {
        if is_some_text(&objects[i].transport_state, "active") {
            if let Some(p) = device_prefix(objects[i].path.as_str()) {
                if same(p.as_str(), prefix) {
                    assert(is_active_transport(objects@[i as int], prefix@));
                    return true;
                }
            }
        }
        i = i + 1;
    }
    false
}

/// Distill the player candidates from the objects on the bus.
pub fn candidates_of(objects: &[BusObject]) -> (out: Vec<PlayerCandidate>)
    ensures
        are_candidates(objects@, out@),
{
    let mut out: Vec<PlayerCandidate> = Vec::new();
    let mut i: usize = 0;
    let ghost f = |o: BusObject| o.is_player;
    assert(objects@.take(0) =~= Seq::empty());
    proof {
        reveal(Seq::filter);
    }
    while i < objects.len()
        invariant
            i <= objects@.len(),
            f == (|o: BusObject| o.is_player),
            out@.len() == objects@.take(i as int).filter(f).len(),
            forall|k: int|
                0 <= k < out@.len() ==> is_candidate(
                    objects@,
                    objects@.take(i as int).filter(f)[k],
                    #[trigger] out@[k],
                ),
        decreases objects@.len() - i,
    {
        let o = &objects[i];
        let ghost before_out = out@;
        proof {
            reveal(Seq::filter);
            assert(objects@.take(i as int + 1).drop_last() =~= objects@.take(i as int));
            assert(objects@.take(i as int + 1).last() == *o);
        }
        if o.is_player {
            let device_active = match device_prefix(o.path.as_str()) {
                Some(p) => streams(objects, p.as_str()),
                None => false,
            };
            let playing = is_some_text(&o.status, "playing") || is_some_text(&o.status, "paused");
            let c = PlayerCandidate { path: o.path.clone(), device_active, playing };
            out.push(c);
            proof {
                let now = objects@.take(i as int + 1).filter(f);
                assert(now =~= objects@.take(i as int).filter(f).push(*o));
                assert forall|k: int| 0 <= k < out@.len() implies is_candidate(
                    objects@,
                    now[k],
                    #[trigger] out@[k],
                ) by {
                    if k < before_out.len() {
                        assert(out@[k] == before_out[k]);
                    }
                }
            }
        }
        i = i + 1;
    }
    assert(objects@.take(objects@.len() as int) =~= objects@);
    out
}

/// Find the best player to follow among the objects on the bus. `current` is the
/// player that is followed now.
pub fn find_active_player(objects: &[BusObject], current: Option<&str>) -> (out: Option<String>)
    ensures
        exists|cs: Seq<PlayerCandidate>|
            are_candidates(objects@, cs) && #[trigger] chosen(
                cs,
                opt_str_view(current),
                opt_view(out),
            ),
{
    let candidates = candidates_of(objects);
    let ghost cs = candidates@;
    let out = select_player(candidates, current);
    assert(are_candidates(objects@, cs) && chosen(cs, opt_str_view(current), opt_view(out)));
    out
}

/// Where a candidate comes from: the object that it stands for.
proof fn lemma_source_of(objects: Seq<BusObject>, cs: Seq<PlayerCandidate>, k: int) -> (i: int)
    requires
        are_candidates(objects, cs),
        0 <= k < cs.len(),
    ensures
        0 <= i < objects.len(),
        objects[i].is_player,
        is_candidate(objects, objects[i], cs[k]),
{
    let f = |o: BusObject| o.is_player;
    let ps = players(objects);
    objects.lemma_filter_pred(f, k);
    objects.lemma_filter_contains_rev(f, ps[k]);
    let i = choose|i: int| 0 <= i < objects.len() && objects[i] == ps[k];
    i
}

/// What becomes of a player: the candidate that stands for it.
proof fn lemma_candidate_for(objects: Seq<BusObject>, cs: Seq<PlayerCandidate>, i: int) -> (k: int)
    requires
        are_candidates(objects, cs),
        0 <= i < objects.len(),
        objects[i].is_player,
    ensures
        0 <= k < cs.len(),
        is_candidate(objects, objects[i], cs[k]),
{
    let f = |o: BusObject| o.is_player;
    let ps = players(objects);
    objects.lemma_filter_contains(f, i);
    assert(ps.contains(objects[i]));
    let k = choose|k: int| 0 <= k < ps.len() && ps[k] == objects[i];
    assert(is_candidate(objects, ps[k], cs[k]));
    k
}

/// A player whose device streams qualifies.
proof fn lemma_streaming_qualifies(
    objects: Seq<BusObject>,
    cs: Seq<PlayerCandidate>,
    i: int,
    j: int,
)
    requires
        are_candidates(objects, cs),
        0 <= i < objects.len(),
        0 <= j < objects.len(),
        objects[i].is_player,
        opt_view(objects[j].transport_state) == Some("active"@),
        prefix_of(objects[i].path@) is Some,
        prefix_of(objects[i].path@) == prefix_of(objects[j].path@),
    ensures
        any_active(cs),
        in_pool(cs, objects[i].path@),
{
    let k = lemma_candidate_for(objects, cs, i);
    assert(is_active_transport(objects[j], prefix_of(objects[i].path@)->0));
    assert(cs[k].device_active);
    assert(qualifies(cs, cs[k]));
    assert(cs[k].path@ == objects[i].path@);
}

/// A player is followed wherever there is one, and it is one of those on the bus.
pub proof fn players_are_followed(
    objects: Seq<BusObject>,
    current: Option<Seq<char>>,
    out: Option<Seq<char>>,
)
    requires
        exists|cs: Seq<PlayerCandidate>|
            are_candidates(objects, cs) && #[trigger] chosen(cs, current, out),
    ensures
        out is None <==> forall|i: int| 0 <= i < objects.len() ==> !(#[trigger] objects[i]).is_player,
        out matches Some(p) ==> exists|i: int|
            0 <= i < objects.len() && (#[trigger] objects[i]).is_player && objects[i].path@ == p,
{
    let cs = choose|cs: Seq<PlayerCandidate>|
        are_candidates(objects, cs) && #[trigger] chosen(cs, current, out);
    if let Some(p) = out {
        let k = choose|k: int|
            0 <= k < cs.len() && (#[trigger] cs[k]).path@ == p && qualifies(cs, cs[k]);
        let i = lemma_source_of(objects, cs, k);
        assert(objects[i].path@ == p);
    } else {
        assert forall|i: int| 0 <= i < objects.len() implies !(#[trigger] objects[i]).is_player by {
            if objects[i].is_player {
                let k = lemma_candidate_for(objects, cs, i);
            }
        }
    }
}

/// Where the device of some player has an active transport, so has the device of the
/// player that is followed.
pub proof fn streaming_devices_are_followed(
    objects: Seq<BusObject>,
    current: Option<Seq<char>>,
    out: Option<Seq<char>>,
)
    requires
        exists|cs: Seq<PlayerCandidate>|
            are_candidates(objects, cs) && #[trigger] chosen(cs, current, out),
        exists|i: int, j: int|
            0 <= i < objects.len() && 0 <= j < objects.len() && (#[trigger] objects[i]).is_player
                && opt_view((#[trigger] objects[j]).transport_state) == Some("active"@)
                && prefix_of(objects[i].path@) is Some && prefix_of(objects[i].path@) == prefix_of(
                objects[j].path@,
            ),
    ensures
        out is Some,
        prefix_of(out->0) is Some,
        exists|j: int|
            0 <= j < objects.len() && opt_view((#[trigger] objects[j]).transport_state) == Some(
                "active"@,
            ) && prefix_of(objects[j].path@) == prefix_of(out->0),
{
    let cs = choose|cs: Seq<PlayerCandidate>|
        are_candidates(objects, cs) && #[trigger] chosen(cs, current, out);
    let (x, y) = choose|i: int, j: int|
        0 <= i < objects.len() && 0 <= j < objects.len() && (#[trigger] objects[i]).is_player
            && opt_view((#[trigger] objects[j]).transport_state) == Some("active"@) && prefix_of(
            objects[i].path@,
        ) is Some && prefix_of(objects[i].path@) == prefix_of(objects[j].path@);
    lemma_streaming_qualifies(objects, cs, x, y);
    let k = choose|k: int|
        0 <= k < cs.len() && (#[trigger] cs[k]).path@ == out->0 && qualifies(cs, cs[k]);
    let i = lemma_source_of(objects, cs, k);
    assert(device_streams(objects, prefix_of(out->0)->0));
    let j = choose|j: int|
        0 <= j < objects.len() && is_active_transport(
            #[trigger] objects[j],
            prefix_of(out->0)->0,
        );
    assert(opt_view(objects[j].transport_state) == Some("active"@));
}

/// Where no player's device has an active transport but some player plays or pauses,
/// so does the player that is followed.
pub proof fn playing_players_come_next(
    objects: Seq<BusObject>,
    current: Option<Seq<char>>,
    out: Option<Seq<char>>,
)
    requires
        exists|cs: Seq<PlayerCandidate>|
            are_candidates(objects, cs) && #[trigger] chosen(cs, current, out),
        exists|i: int|
            0 <= i < objects.len() && (#[trigger] objects[i]).is_player && (opt_view(
                objects[i].status,
            ) == Some("playing"@) || opt_view(objects[i].status) == Some("paused"@)),
        forall|i: int, j: int|
            0 <= i < objects.len() && 0 <= j < objects.len() && (#[trigger] objects[i]).is_player
                && opt_view((#[trigger] objects[j]).transport_state) == Some("active"@)
                && prefix_of(objects[i].path@) is Some ==> prefix_of(objects[i].path@) != prefix_of(
                objects[j].path@,
            ),
    ensures
        out is Some,
        exists|i: int|
            0 <= i < objects.len() && (#[trigger] objects[i]).is_player && objects[i].path@
                == out->0 && (opt_view(objects[i].status) == Some("playing"@) || opt_view(
                objects[i].status,
            ) == Some("paused"@)),
{
    let cs = choose|cs: Seq<PlayerCandidate>|
        are_candidates(objects, cs) && #[trigger] chosen(cs, current, out);
    let x = choose|i: int|
        0 <= i < objects.len() && (#[trigger] objects[i]).is_player && (opt_view(objects[i].status)
            == Some("playing"@) || opt_view(objects[i].status) == Some("paused"@));
    let b = lemma_candidate_for(objects, cs, x);
    assert(cs[b].playing);
    if any_active(cs) {
        let a = choose|a: int| 0 <= a < cs.len() && (#[trigger] cs[a]).device_active;
        let i = lemma_source_of(objects, cs, a);
        let pre = prefix_of(objects[i].path@)->0;
        let j = choose|j: int|
            0 <= j < objects.len() && is_active_transport(#[trigger] objects[j], pre);
        assert(objects[i].is_player && opt_view(objects[j].transport_state) == Some("active"@));
    }
    let k = choose|k: int|
        0 <= k < cs.len() && (#[trigger] cs[k]).path@ == out->0 && qualifies(cs, cs[k]);
    let i = lemma_source_of(objects, cs, k);
    assert(objects[i].path@ == out->0);
}

/// A player whose device has an active transport is kept while it is followed; where
/// another one is taken instead, no such player's path stands before its own.
pub proof fn streaming_players_are_kept(
    objects: Seq<BusObject>,
    current: Option<Seq<char>>,
    out: Option<Seq<char>>,
    i: int,
    j: int,
)
    requires
        exists|cs: Seq<PlayerCandidate>|
            are_candidates(objects, cs) && #[trigger] chosen(cs, current, out),
        0 <= i < objects.len(),
        0 <= j < objects.len(),
        objects[i].is_player,
        opt_view(objects[j].transport_state) == Some("active"@),
        prefix_of(objects[i].path@) is Some,
        prefix_of(objects[i].path@) == prefix_of(objects[j].path@),
    ensures
        current == Some(objects[i].path@) ==> out == current,
        out is Some,
        out != current ==> out->0 == objects[i].path@ || before(out->0, objects[i].path@),
{
    let cs = choose|cs: Seq<PlayerCandidate>|
        are_candidates(objects, cs) && #[trigger] chosen(cs, current, out);
    lemma_streaming_qualifies(objects, cs, i, j);
    if out is Some {
        order_is_total(out->0, objects[i].path@);
    }
}

// ── Metadata ─────────────────────────────────────────────────────────────────

/// What a player states of its track. The duration may come as a 32-bit number, or
/// else as a number of another width.
#[derive(Debug, PartialEq, Eq)]
pub struct TrackProps {
    pub title: Option<String>,
    pub artist: Option<String>,
    pub album: Option<String>,
    pub duration: Option<u32>,
    pub wide_duration: Option<u64>,
}

/// The text that an optional property means.
pub open spec fn prop_text(o: Option<String>) -> Option<Seq<char>> {
    match o {
        Some(s) => real_text(s@),
        None => None,
    }
}

/// The duration that the properties mean: a wide one that does not fit means none.
pub open spec fn prop_duration(narrow: Option<u32>, wide: Option<u64>) -> Option<u32> {
    match narrow {
        Some(d) => real_duration(d),
        None => match wide {
            Some(d) => if d <= u32::MAX {
                real_duration(d as u32)
            } else {
                None
            },
            None => None,
        },
    }
}

/// A title, artist or album that holds any character but white space is published,
/// without the white space at either end of it; one that has none there is published
/// unchanged. One without such a character is not published.
pub proof fn properties_are_published(o: Option<String>)
    ensures
        o is None ==> prop_text(o) is None,
        o matches Some(s) ==> {
            &&& prop_text(o) is Some <==> exists|k: int| 0 <= k < s@.len() && !white(#[trigger] s@[k])
            &&& prop_text(o) matches Some(t) ==> t.len() > 0 && !white(t[0]) && !white(t.last())
                && exists|i: int, j: int|
                0 <= i <= j <= s@.len() && #[trigger] s@.subrange(i, j) == t && (forall|k: int|
                    0 <= k < i || j <= k < s@.len() ==> white(#[trigger] s@[k]))
            &&& s@.len() > 0 && !white(s@[0]) && !white(s@.last()) ==> prop_text(o) == Some(s@)
        },
{
    if let Some(s) = o {
        trimming_takes_white_space_off_the_ends(s@);
    }
}

/// A duration is published as it is stated, in whichever width; that of zero, the
/// greatest 32-bit number and what does not fit are not.
pub proof fn durations_are_published(d: u32, narrow: Option<u32>, wide: Option<u64>)
    ensures
        0 < d < u32::MAX ==> prop_duration(Some(d), wide) == Some(d) && prop_duration(
            None,
            Some(d as u64),
        ) == Some(d),
        prop_duration(narrow, wide) matches Some(n) ==> 0 < n < u32::MAX,
        prop_duration(narrow, wide) matches Some(n) ==> narrow == Some(n) || narrow is None && wide
            == Some(n as u64),
{
}

fn clean(o: Option<String>) -> (out: Option<String>)
    ensures
        opt_view(out) == prop_text(o),
{
    match o {
        Some(s) => sanitize_text(s),
        None => None,
    }
}

/// Extract the metadata from what a player states of its track.
pub fn track_from_propmap(props: TrackProps) -> (track: TrackMetadata)
    ensures
        opt_view(track.title) == prop_text(props.title),
        opt_view(track.artist) == prop_text(props.artist),
        opt_view(track.album) == prop_text(props.album),
        track.duration_ms == prop_duration(props.duration, props.wide_duration),
{
    let raw: Option<u32> = match props.duration {
        Some(d) => Some(d),
        None => match props.wide_duration {
            Some(d) => if d <= 0xffff_ffff {
                Some(d as u32)
            } else {
                Some(u32::MAX)
            },
            None => None,
        },
    };
    let duration_ms = match raw {
        Some(d) => sanitize_duration_ms(d),
        None => None,
    };
    TrackMetadata {
        title: clean(props.title),
        artist: clean(props.artist),
        album: clean(props.album),
        duration_ms,
    }
}

/// What the answers of a player say: its status (without which there is nothing to
/// say), its position and its track, which may be absent.
pub fn read_media(
    status: Option<String>,
    position_ms: Option<u32>,
    track: Option<TrackProps>,
) -> (info: Option<MediaInfo>)
    ensures
        info is Some == status is Some,
        info is Some ==> {
            let i = info->0;
            &&& i.status@ == PlaybackStatus::of_bluez(status->0@).wire()
            &&& i.position_ms == position_ms
            &&& i.artwork_url is None
            &&& match track {
                Some(p) => {
                    &&& opt_view(i.title) == prop_text(p.title)
                    &&& opt_view(i.artist) == prop_text(p.artist)
                    &&& opt_view(i.album) == prop_text(p.album)
                    &&& i.duration_ms == prop_duration(p.duration, p.wide_duration)
                },
                None => i.title is None && i.artist is None && i.album is None
                    && i.duration_ms is None,
            }
        },
        info is Some && track is Some ==> {
            let i = info->0;
            let p = track->0;
            &&& p.title is Some && p.title->0@.len() > 0 && !white(p.title->0@[0]) && !white(
                p.title->0@.last(),
            ) ==> opt_view(i.title) == Some(p.title->0@)
            &&& p.artist is Some && p.artist->0@.len() > 0 && !white(p.artist->0@[0]) && !white(
                p.artist->0@.last(),
            ) ==> opt_view(i.artist) == Some(p.artist->0@)
            &&& p.album is Some && p.album->0@.len() > 0 && !white(p.album->0@[0]) && !white(
                p.album->0@.last(),
            ) ==> opt_view(i.album) == Some(p.album->0@)
        },
{
    proof {
        if track is Some {
            properties_are_published(track->0.title);
            properties_are_published(track->0.artist);
            properties_are_published(track->0.album);
        }
    }
    let status = match status {
        Some(s) => PlaybackStatus::from_bluez(s.as_str()),
        None => return None,
    };
    let track = match track {
        Some(p) => track_from_propmap(p),
        None => TrackMetadata::default(),
    };
    Some(media_info_from(status, &track, position_ms))
}

// ── Cover art ────────────────────────────────────────────────────────────────

/// What tells a track apart: its title and its artist.
#[derive(Debug, PartialEq, Eq)]
pub struct TrackKey {
    pub title: String,
    pub artist: String,
}

/// What a [`TrackKey`] says.
pub struct KeyData {
    pub title: Seq<char>,
    pub artist: Seq<char>,
}

impl View for TrackKey {
    type V = KeyData;

    open spec fn view(&self) -> KeyData {
        KeyData { title: self.title@, artist: self.artist@ }
    }
}

/// The text of an optional property, or nothing.
pub open spec fn text_or_empty(o: Option<String>) -> Seq<char> {
    match o {
        Some(s) => s@,
        None => Seq::empty(),
    }
}

/// The key of what is playing; none where neither title nor artist is known.
pub open spec fn key_of(info: MediaInfo) -> Option<KeyData> {
    if text_or_empty(info.title).len() == 0 && text_or_empty(info.artist).len() == 0 {
        None
    } else {
        Some(KeyData { title: text_or_empty(info.title), artist: text_or_empty(info.artist) })
    }
}

/// A lookup of cover art.
#[derive(Debug, PartialEq, Eq)]
pub struct ArtLookup {
    pub key: TrackKey,
    pub album: String,
}

/// The current track and the cover art that was found for it. Outlives
/// connections, so that a track keeps its art when the connection is renewed.
pub struct ArtCache {
    entry: Option<(TrackKey, Option<String>)>,
}

impl View for ArtCache {
    type V = Option<(KeyData, Option<Seq<char>>)>;

    closed spec fn view(&self) -> Option<(KeyData, Option<Seq<char>>)> {
        match self.entry {
            Some((k, url)) => Some((k@, opt_view(url))),
            None => None,
        }
    }
}

/// The art that is known of the track that is playing.
pub open spec fn cached_art(
    cache: Option<(KeyData, Option<Seq<char>>)>,
    key: Option<KeyData>,
) -> Option<Seq<char>> {
    if cache is Some && key == Some((cache->0).0) {
        (cache->0).1
    } else {
        None
    }
}

/// Whether what is playing is another track than before.
pub open spec fn is_new_track(
    cache: Option<(KeyData, Option<Seq<char>>)>,
    key: Option<KeyData>,
) -> bool {
    key is Some && !(cache is Some && key == Some((cache->0).0))
}

fn or_empty(o: &Option<String>) -> (s: String)
    ensures
        s@ == text_or_empty(*o),
{
    match o {
        Some(s) => s.clone(),
        None => String::new(),
    }
}

impl ArtCache {
    /// No track has been seen yet.
    pub fn new() -> (c: Self)
        ensures
            c@ is None,
    {
        ArtCache { entry: None }
    }

    fn is_current(&self, key: &TrackKey) -> (r: bool)
        ensures
            r == (self@ is Some && (self@->0).0 == key@),
    {
        match &self.entry {
            Some((k, _)) => same(k.title.as_str(), key.title.as_str()) && same(
                k.artist.as_str(),
                key.artist.as_str(),
            ),
            None => false,
        }
    }

    /// What is to be published of what a player reports, and the lookup to make.
    ///
    /// The same track keeps the art that was found for it, and nothing is looked
    /// up again. A new track is published without art, remembered, and looked up
    /// once. Without title and artist there is no art and no lookup.
    pub fn report(&mut self, info: MediaInfo) -> (r: (MediaInfo, Option<ArtLookup>))
        ensures
            opt_view(r.0.artwork_url) == cached_art(old(self)@, key_of(info)),
            r.0 == (MediaInfo { artwork_url: r.0.artwork_url, ..info }),
            r.1 is Some == is_new_track(old(self)@, key_of(info)),
            r.1 is Some ==> Some(r.1->0.key@) == key_of(info) && r.1->0.album@ == text_or_empty(
                info.album,
            ),
            final(self)@ == (if is_new_track(old(self)@, key_of(info)) {
                Some((key_of(info)->0, None))
            } else {
                old(self)@
            }),
    {
        let title = or_empty(&info.title);
        let artist = or_empty(&info.artist);
        let mut info = info;
        if title.as_str().is_empty() && artist.as_str().is_empty() {
            info.artwork_url = None;
            return (info, None);
        }
        let key = TrackKey { title, artist };
        if self.is_current(&key) {
            let url = match &self.entry {
                Some((_, url)) => clone_opt(url),
                None => None,
            };
            info.artwork_url = url;
            return (info, None);
        }
        let album = or_empty(&info.album);
        let copy = TrackKey { title: key.title.clone(), artist: key.artist.clone() };
        self.entry = Some((copy, None));
        info.artwork_url = None;
        (info, Some(ArtLookup { key, album }))
    }

    /// Art was found for a track: remember it, unless another track is playing by
    /// now. Says whether it was remembered.
    pub fn found(&mut self, key: &TrackKey, url: &String) -> (r: bool)
        ensures
            r == (old(self)@ is Some && (old(self)@->0).0 == key@),
            final(self)@ == (if r {
                Some((key@, Some(url@)))
            } else {
                old(self)@
            }),
    {
        if self.is_current(key) {
            let copy = TrackKey { title: key.title.clone(), artist: key.artist.clone() };
            self.entry = Some((copy, Some(url.clone())));
            true
        } else {
            false
        }
    }
}

/// What is to be published once art was found for a track: what is playing, with
/// the art; nothing where another track or none is playing by now.
pub fn with_art(media: &Option<MediaInfo>, key: &TrackKey, url: &String) -> (out: Option<MediaInfo>)
    ensures
        out is Some == (media is Some && text_or_empty(media->0.title) == key@.title
            && text_or_empty(media->0.artist) == key@.artist),
        out is Some ==> out->0 == (MediaInfo { artwork_url: Some(*url), ..media->0 }),
{
    match media {
        Some(m) => {
            if same(or_empty(&m.title).as_str(), key.title.as_str()) && same(
                or_empty(&m.artist).as_str(),
                key.artist.as_str(),
            ) {
                let mut out = m.clone();
                out.artwork_url = Some(url.clone());
                Some(out)
            } else {
                None
            }
        },
        None => None,
    }
}

/// A new track is published without art, whatever the report brought along.
pub proof fn new_tracks_start_without_art(
    cache: Option<(KeyData, Option<Seq<char>>)>,
    key: Option<KeyData>,
)
    requires
        is_new_track(cache, key),
    ensures
        cached_art(cache, key) is None,
{
}

/// The same track is looked up at most once: a report that repeats the track of the
/// cache starts no lookup and shows the art that was found for it.
pub proof fn art_survives_repeated_reports(
    key: KeyData,
    url: Option<Seq<char>>,
    info: MediaInfo,
)
    requires
        key_of(info) == Some(key),
    ensures
        !is_new_track(Some((key, url)), key_of(info)),
        cached_art(Some((key, url)), key_of(info)) == url,
{
}

/// Two reports are of the same track where title and artist agree, an absent one
/// counting as an empty one; a report with neither is of no track.
pub proof fn tracks_go_by_title_and_artist(a: MediaInfo, b: MediaInfo)
    ensures
        a.title is Some && a.title->0@.len() > 0 ==> key_of(a) is Some && key_of(a)->0.title == a.title->0@,
        a.artist is Some && a.artist->0@.len() > 0 ==> key_of(a) is Some && key_of(a)->0.artist == a.artist->0@,
        a.title is None && a.artist is None ==> key_of(a) is None,
        a.title is None && key_of(a) is Some ==> key_of(a)->0.title.len() == 0,
        a.artist is None && key_of(a) is Some ==> key_of(a)->0.artist.len() == 0,
        a.title == b.title && a.artist == b.artist ==> key_of(a) == key_of(b),
        a.title is Some && b.title is Some && a.title->0@ != b.title->0@ ==> key_of(a) != key_of(b),
        a.artist is Some && b.artist is Some && a.artist->0@ != b.artist->0@ ==> key_of(a) != key_of(
            b,
        ),
{
    if a.title is Some && b.title is Some && a.title->0@ != b.title->0@ {
        if key_of(a) == key_of(b) {
            assert(a.title->0@ =~= b.title->0@);
        }
    }
    if a.artist is Some && b.artist is Some && a.artist->0@ != b.artist->0@ {
        if key_of(a) == key_of(b) {
            assert(a.artist->0@ =~= b.artist->0@);
        }
    }
}

/// Art that was found for one track is never shown with another.
pub proof fn art_stays_with_its_track(
    track: KeyData,
    url: Option<Seq<char>>,
    key: Option<KeyData>,
)
    ensures
        key != Some(track) ==> cached_art(Some((track, url)), key) is None,
        cached_art(Some((track, url)), Some(track)) == url,
        cached_art(None, key) is None,
        key is Some && key != Some(track) ==> is_new_track(Some((track, url)), key),
        key is Some ==> is_new_track(None, key),
        key is None ==> !is_new_track(Some((track, url)), key),
{
}

// ── Session ──────────────────────────────────────────────────────────────────

/// What follows a step of a session with a player.
#[derive(Debug, Clone, Copy, PartialEq, Eq, Structural)]
pub enum SessionNext {
    /// Go on.
    Stay,
    /// Read the player and publish what it reports.
    Read,
    /// Give the connection up, clear what is shown, and connect again.
    Reconnect,
}

/// A session with a player.
pub struct MediaSession {
    player: String,
    health: DbusHealth,
}

/// What a [`MediaSession`] holds.
pub struct MediaSessionData {
    pub player: Seq<char>,
    pub failures: nat,
}

impl View for MediaSession {
    type V = MediaSessionData;

    closed spec fn view(&self) -> MediaSessionData {
        MediaSessionData { player: self.player@, failures: self.health@ }
    }
}

impl MediaSession {
    /// A session with the player that was found.
    pub fn new(player: String) -> (s: Self)
        ensures
            s@ == (MediaSessionData { player: player@, failures: 0 }),
    {
        MediaSession { player, health: DbusHealth::new() }
    }

    /// A call was made, of a command or of a read: success ends a streak of
    /// failures; too long a streak ends the session.
    pub fn called(&mut self, ok: bool) -> (next: SessionNext)
        ensures
            next == (if !ok && old(self)@.failures + 1 == DBUS_FAILURE_THRESHOLD {
                SessionNext::Reconnect
            } else {
                SessionNext::Stay
            }),
            final(self)@ == (MediaSessionData {
                failures: if ok || old(self)@.failures + 1 == DBUS_FAILURE_THRESHOLD {
                    0
                } else {
                    old(self)@.failures + 1
                },
                ..old(self)@
            }),
    {
        if ok {
            self.health.record_success();
            SessionNext::Stay
        } else if self.health.record_failure() {
            SessionNext::Reconnect
        } else {
            SessionNext::Stay
        }
    }

    /// A property of the object changed: those of the player are read anew, others
    /// do not matter.
    pub fn signalled(&self, iface: &str) -> (next: SessionNext)
        ensures
            next == (if iface@ == MEDIAPLAYER1_IFACE@ {
                SessionNext::Read
            } else {
                SessionNext::Stay
            }),
    {
        if same(iface, MEDIAPLAYER1_IFACE) {
            SessionNext::Read
        } else {
            SessionNext::Stay
        }
    }

    /// The players were looked at: if another one is the best by now, the session
    /// ends, so that it can be followed; else the player is read.
    pub fn polled(&self, best: &Option<String>) -> (next: SessionNext)
        ensures
            next == (if *best is Some && best->0@ != self@.player {
                SessionNext::Reconnect
            } else {
                SessionNext::Read
            }),
    {
        match best {
            Some(p) => if same(p.as_str(), self.player.as_str()) {
                SessionNext::Read
            } else {
                SessionNext::Reconnect
            },
            None => SessionNext::Read,
        }
    }

    /// The player that is followed.
    pub fn player(&self) -> (p: &str)
        ensures
            p@ == self@.player,
    {
        self.player.as_str()
    }
}

// ── Following players ────────────────────────────────────────────────────────

/// What the media manager is told.
#[derive(Debug, Clone, Copy, PartialEq, Eq, Structural)]
pub enum ManagerEvent {
    /// What was to be done is done; also told once, to begin with.
    Done,
    /// It failed: there is no connection, no player or no match.
    Failed,
    /// What follows a step of the session.
    Session(SessionNext),
    /// The signals of the player ended.
    StreamEnded,
    /// No command can come any more.
    SenderGone,
    /// The manager is to stop.
    Shutdown,
}

/// What the media manager is to do.
#[derive(Debug, Clone, Copy, PartialEq, Eq, Structural)]
pub enum ManagerAction {
    /// Show nothing, take back the match of the session that ended, if so asked, and
    /// connect to the bus.
    Connect { unmatch: bool },
    /// Look for a player.
    Look,
    /// Ask for the signals of the player that was found.
    Match,
    /// Read the player and publish what it reports.
    Read,
    /// Wait for a command, a signal or the next look.
    Listen,
    /// Show nothing, if so asked, and wait.
    Pause { clear: bool, secs: u64 },
    /// Take back the match, if so asked, and return.
    Return { unmatch: bool },
}

/// Where the media manager stands.
#[derive(Debug, Clone, Copy, PartialEq, Eq, Structural)]
pub enum ManagerPhase {
    Starting,
    Connecting,
    /// Waiting to connect again.
    BackingOff,
    Looking,
    /// Waiting to look again.
    Polling,
    Matching,
    Following,
    Ended,
}

/// The phase after an event, and what is to be done. A connection or a match that
/// failed is tried again after a while, with a new connection; without a player, the
/// bus is looked at again after a while. An event that does not belong to the phase
/// changes nothing.
pub open spec fn manager_step(phase: ManagerPhase, event: ManagerEvent) -> (
    ManagerPhase,
    ManagerAction,
) {
    match (phase, event) {
        (_, ManagerEvent::Shutdown) => (
            ManagerPhase::Ended,
            ManagerAction::Return { unmatch: phase == ManagerPhase::Following },
        ),
        (ManagerPhase::Starting, ManagerEvent::Done) => (
            ManagerPhase::Connecting,
            ManagerAction::Connect { unmatch: false },
        ),
        (ManagerPhase::Connecting, ManagerEvent::Done) => (
            ManagerPhase::Looking,
            ManagerAction::Look,
        ),
        (ManagerPhase::Connecting, ManagerEvent::Failed) => (
            ManagerPhase::BackingOff,
            ManagerAction::Pause { clear: false, secs: RECONNECT_BACKOFF_SECS },
        ),
        (ManagerPhase::BackingOff, ManagerEvent::Done) => (
            ManagerPhase::Connecting,
            ManagerAction::Connect { unmatch: false },
        ),
        (ManagerPhase::Looking, ManagerEvent::Done) => (
            ManagerPhase::Matching,
            ManagerAction::Match,
        ),
        (ManagerPhase::Looking, ManagerEvent::Failed) => (
            ManagerPhase::Polling,
            ManagerAction::Pause { clear: true, secs: PLAYER_POLL_SECS },
        ),
        (ManagerPhase::Polling, ManagerEvent::Done) => (ManagerPhase::Looking, ManagerAction::Look),
        (ManagerPhase::Matching, ManagerEvent::Done) => (
            ManagerPhase::Following,
            ManagerAction::Read,
        ),
        (ManagerPhase::Matching, ManagerEvent::Failed) => (
            ManagerPhase::BackingOff,
            ManagerAction::Pause { clear: false, secs: RECONNECT_BACKOFF_SECS },
        ),
        (ManagerPhase::Following, ManagerEvent::Session(SessionNext::Read)) => (
            ManagerPhase::Following,
            ManagerAction::Read,
        ),
        (ManagerPhase::Following, ManagerEvent::Session(SessionNext::Reconnect)) => (
            ManagerPhase::Connecting,
            ManagerAction::Connect { unmatch: true },
        ),
        (ManagerPhase::Following, ManagerEvent::StreamEnded) => (
            ManagerPhase::Connecting,
            ManagerAction::Connect { unmatch: false },
        ),
        (ManagerPhase::Following, ManagerEvent::SenderGone) => (
            ManagerPhase::Ended,
            ManagerAction::Return { unmatch: true },
        ),
        _ => (phase, ManagerAction::Listen),
    }
}

/// Follows one player after another, over one connection after another.
pub struct MediaManager {
    phase: ManagerPhase,
}

impl View for MediaManager {
    type V = ManagerPhase;

    closed spec fn view(&self) -> ManagerPhase {
        self.phase
    }
}

impl MediaManager {
    pub fn new() -> (m: Self)
        ensures
            m@ == ManagerPhase::Starting,
    {
        MediaManager { phase: ManagerPhase::Starting }
    }

    /// Take in an event; returns what is to be done.
    pub fn on_event(&mut self, event: ManagerEvent) -> (action: ManagerAction)
        ensures
            (final(self)@, action) == manager_step(old(self)@, event),
    {
        let following = self.phase == ManagerPhase::Following;
        let (phase, action) = match (self.phase, event) {
            (_, ManagerEvent::Shutdown) => (
                ManagerPhase::Ended,
                ManagerAction::Return { unmatch: following },
            ),
            (ManagerPhase::Starting, ManagerEvent::Done)
            | (ManagerPhase::BackingOff, ManagerEvent::Done)
            | (ManagerPhase::Following, ManagerEvent::StreamEnded) => (
                ManagerPhase::Connecting,
                ManagerAction::Connect { unmatch: false },
            ),
            (ManagerPhase::Connecting, ManagerEvent::Done)
            | (ManagerPhase::Polling, ManagerEvent::Done) => (
                ManagerPhase::Looking,
                ManagerAction::Look,
            ),
            (ManagerPhase::Connecting, ManagerEvent::Failed)
            | (ManagerPhase::Matching, ManagerEvent::Failed) => (
                ManagerPhase::BackingOff,
                ManagerAction::Pause { clear: false, secs: RECONNECT_BACKOFF_SECS },
            ),
            (ManagerPhase::Looking, ManagerEvent::Done) => (
                ManagerPhase::Matching,
                ManagerAction::Match,
            ),
            (ManagerPhase::Looking, ManagerEvent::Failed) => (
                ManagerPhase::Polling,
                ManagerAction::Pause { clear: true, secs: PLAYER_POLL_SECS },
            ),
            (ManagerPhase::Matching, ManagerEvent::Done)
            | (ManagerPhase::Following, ManagerEvent::Session(SessionNext::Read)) => (
                ManagerPhase::Following,
                ManagerAction::Read,
            ),
            (ManagerPhase::Following, ManagerEvent::Session(SessionNext::Reconnect)) => (
                ManagerPhase::Connecting,
                ManagerAction::Connect { unmatch: true },
            ),
            (ManagerPhase::Following, ManagerEvent::SenderGone) => (
                ManagerPhase::Ended,
                ManagerAction::Return { unmatch: true },
            ),
            _ => (self.phase, ManagerAction::Listen),
        };
        self.phase = phase;
        action
    }
}

/// Whatever failed is tried again only after a while.
pub proof fn failures_are_followed_by_a_pause(phase: ManagerPhase)
    requires
        phase == ManagerPhase::Connecting || phase == ManagerPhase::Looking || phase
            == ManagerPhase::Matching,
    ensures
        manager_step(phase, ManagerEvent::Failed).1 matches ManagerAction::Pause { secs, .. }
            && secs > 0,
{
}

/// A match is taken back whenever the manager leaves a session whose signals did not
/// end by themselves, and at no other time.
pub proof fn matches_are_taken_back(phase: ManagerPhase, event: ManagerEvent)
    ensures
        ({
            let (next, action) = manager_step(phase, event);
            let unmatch = action matches ManagerAction::Connect { unmatch: true } || action
                matches ManagerAction::Return { unmatch: true };
            unmatch == (phase == ManagerPhase::Following && next != ManagerPhase::Following && event
                != ManagerEvent::StreamEnded)
        }),
{
}

/// A shutdown is always followed by the return.
pub proof fn the_media_manager_stops_on_shutdown(phase: ManagerPhase)
    ensures
        manager_step(phase, ManagerEvent::Shutdown).0 == ManagerPhase::Ended,
        manager_step(phase, ManagerEvent::Shutdown).1 is Return,
{
}

/// What the manager does is what its phase says: it connects while connecting, looks
/// while looking, and reads only while it follows a player; it stays where it is as
/// long as it listens.
pub proof fn actions_belong_to_their_phase(phase: ManagerPhase, event: ManagerEvent)
    ensures
        ({
            let (next, action) = manager_step(phase, event);
            match action {
                ManagerAction::Connect { .. } => next == ManagerPhase::Connecting,
                ManagerAction::Look => next == ManagerPhase::Looking,
                ManagerAction::Match => next == ManagerPhase::Matching && phase
                    == ManagerPhase::Looking,
                ManagerAction::Read => next == ManagerPhase::Following,
                ManagerAction::Listen => next == phase,
                ManagerAction::Pause { clear, secs } => event == ManagerEvent::Failed && (if clear {
                    next == ManagerPhase::Polling && secs == 3
                } else {
                    next == ManagerPhase::BackingOff && secs == 2
                }),
                ManagerAction::Return { .. } => next == ManagerPhase::Ended,
            }
        }),
        phase == ManagerPhase::Ended ==> manager_step(phase, event).0 == ManagerPhase::Ended,
{
}

/// A connection, a player and a match lead to a player that is read; a player that was
/// not found is looked for again over the same connection, and a connection or match
/// that failed is followed by a new connection.
pub proof fn the_manager_gets_to_a_player(phase: ManagerPhase)
    ensures
        ({
            let connected = manager_step(ManagerPhase::Connecting, ManagerEvent::Done);
            let found = manager_step(connected.0, ManagerEvent::Done);
            let matched = manager_step(found.0, ManagerEvent::Done);
            connected.1 is Look && found.1 is Match && matched.1 is Read
        }),
        manager_step(
            manager_step(ManagerPhase::Looking, ManagerEvent::Failed).0,
            ManagerEvent::Done,
        ).1 is Look,
        phase == ManagerPhase::Connecting || phase == ManagerPhase::Matching ==> manager_step(
            manager_step(phase, ManagerEvent::Failed).0,
            ManagerEvent::Done,
        ).1 == (ManagerAction::Connect { unmatch: false }),
        manager_step(ManagerPhase::Starting, ManagerEvent::Done).1 == (ManagerAction::Connect {
            unmatch: false,
        }),
{
}

/// A session that asks to read is read, one that asks for another connection is ended
/// for it, and so is one whose signals ended; nobody left to send commands ends the
/// manager.
pub proof fn sessions_get_what_they_ask_for(next: SessionNext)
    ensures
        manager_step(ManagerPhase::Following, ManagerEvent::Session(next)).1 is Read <==> next
            == SessionNext::Read,
        manager_step(ManagerPhase::Following, ManagerEvent::Session(next)).1 is Connect <==> next
            == SessionNext::Reconnect,
        manager_step(ManagerPhase::Following, ManagerEvent::Session(next)).1 is Listen <==> next
            == SessionNext::Stay,
        manager_step(ManagerPhase::Following, ManagerEvent::StreamEnded).1 is Connect,
        manager_step(ManagerPhase::Following, ManagerEvent::SenderGone).1 is Return,
{
}

} // verus!
