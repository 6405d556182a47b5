//! Which Bluetooth adapter is used: `SOUNDSYNC_HCI` if set and not empty, else the
//! first `hci*` under `/sys/class/bluetooth`, else `hci0`.
use vstd::prelude::*;
use crate::text::{searching_goes_by_the_characters, trimming_takes_white_space_off_the_ends, white, before, less, opt_str_view, order_is_asymmetric, order_is_irreflexive, order_is_total, order_is_transitive, starts, starts_with, trim, trimmed, views};

verus! {

pub const SYS_BLUETOOTH_DIR: &'static str = "/sys/class/bluetooth";

pub const FALLBACK_ADAPTER: &'static str = "hci0";

/// The names of adapters among these, in their order.
pub open spec fn hci_names(names: Seq<Seq<char>>) -> Seq<Seq<char>>
    decreases names.len(),
{
    if names.len() == 0 {
        Seq::empty()
    } else {
        let head = hci_names(names.drop_last());
        if starts(names.last(), "hci"@) {
            head.push(names.last())
        } else {
            head
        }
    }
}

/// Whether the names are in ascending order.
pub open spec fn sorted(names: Seq<Seq<char>>) -> bool {
    forall|i: int, j: int|
        0 <= i < j < names.len() ==> !before(#[trigger] names[j], #[trigger] names[i])
}

/// The place of a name among sorted ones: after those that it is not before.
fn insert_sorted(names: &mut Vec<String>, name: String)
    requires
        sorted(views(old(names)@)),
    ensures
        sorted(views(final(names)@)),
        views(final(names)@).to_multiset() == views(old(names)@).to_multiset().insert(name@),
{
    let ghost old_names = names@;
    let ghost ov = views(names@);
    let mut at: usize = names.len();
    while at > 0 && less(name.as_str(), names[at - 1].as_str())
        invariant
            at <= names@.len(),
            names@ == old_names,
            forall|k: int| at <= k < names@.len() ==> before(name@, #[trigger] names@[k]@),
        decreases at,
    {
        at = at - 1;
    }
    let ghost n = name@;
    names.insert(at, name);
    proof {
        let nv = views(names@);
        assert(nv =~= ov.insert(at as int, n));
        assert forall|i: int, j: int| 0 <= i < j < nv.len() implies !before(
            #[trigger] nv[j],
            #[trigger] nv[i],
        ) by {
            if j == at {
                assert(!before(n, ov[at - 1]));
                assert(nv[i] == ov[i]);
                if i < at - 1 {
                    assert(!before(ov[at - 1], ov[i]));
                    if before(n, ov[i]) {
                        lemma_not_before(n, ov[at - 1], ov[i]);
                    }
                }
            } else if i == at {
                assert(nv[j] == ov[j - 1]);
                assert(old_names[j - 1]@ == ov[j - 1]);
                assert(before(n, ov[j - 1]));
                order_is_asymmetric(n, ov[j - 1]);
            } else {
                let a = if i < at {
                    i
                } else {
                    i - 1
                };
                let b = if j < at {
                    j
                } else {
                    j - 1
                };
                assert(nv[i] == ov[a] && nv[j] == ov[b]);
            }
        }
        vstd::seq_lib::to_multiset_insert(ov, at as int, n);
    }
}

proof fn lemma_not_before(a: Seq<char>, b: Seq<char>, c: Seq<char>)
    requires
        before(a, c),
        !before(b, c),
    ensures
        before(a, b),
{
    order_is_total(b, c);
    if before(c, b) {
        order_is_transitive(a, c, b);
    }
}

/// The adapters among the entries of a directory, sorted.
pub fn adapters_among(entries: &[String]) -> (names: Vec<String>)
    ensures
        sorted(views(names@)),
        views(names@).to_multiset() == hci_names(views(entries@)).to_multiset(),
{
    broadcast use vstd::seq_lib::group_to_multiset_ensures;

    let ghost ev = views(entries@);
    let mut names: Vec<String> = Vec::new();
    let mut i: usize = 0;
    assert(views(names@) =~= hci_names(ev.take(0)));
    while i < entries.len()
        invariant
            i <= entries@.len(),
            ev == views(entries@),
            sorted(views(names@)),
            views(names@).to_multiset() == hci_names(ev.take(i as int)).to_multiset(),
        decreases entries@.len() - i,
    {
        let ghost head = hci_names(ev.take(i as int));
        assert(ev.take(i + 1).drop_last() =~= ev.take(i as int));
        assert(ev.take(i + 1).last() == entries@[i as int]@);
        if starts_with(entries[i].as_str(), "hci") {
            insert_sorted(&mut names, entries[i].clone());
            proof {
                head.to_multiset_ensures();
                assert(head.push(entries@[i as int]@).to_multiset() == head.to_multiset().insert(
                    entries@[i as int]@,
                ));
            }
        }
        i = i + 1;
    }
    assert(ev.take(ev.len() as int) =~= ev);
    names
}

/// The adapter for an override and a list of adapters.
pub open spec fn adapter_for(env: Option<Seq<char>>, adapters: Seq<Seq<char>>) -> Seq<char> {
    if env is Some && trimmed(env->0).len() > 0 {
        trimmed(env->0)
    } else if adapters.len() > 0 {
        adapters[0]
    } else {
        FALLBACK_ADAPTER@
    }
}

/// Resolve the adapter from the value of `SOUNDSYNC_HCI` and the sorted list of
/// adapters: the override (trimmed, if not empty), the first adapter, or `hci0`.
pub fn resolve_adapter_from(env: Option<&str>, adapters: &[String]) -> (hci: String)
    ensures
        hci@ == adapter_for(opt_str_view(env), views(adapters@)),
{
    if let Some(h) = env {
        let h = trim(h);
        if !h.as_str().is_empty() {
            return h;
        }
    }
    if adapters.len() > 0 {
        assert(views(adapters@)[0] == adapters@[0]@);
        return adapters[0].clone();
    }
    FALLBACK_ADAPTER.to_owned()
}

/// Resolve the adapter from the value of `SOUNDSYNC_HCI` and the entries of
/// [`SYS_BLUETOOTH_DIR`], in whatever order they came.
pub fn resolve_adapter(env: Option<&str>, entries: &[String]) -> (hci: String)
    ensures
        exists|adapters: Seq<Seq<char>>|
            #[trigger] sorted(adapters) && adapters.to_multiset() == hci_names(
                views(entries@),
            ).to_multiset() && hci@ == adapter_for(opt_str_view(env), adapters),
{
    let adapters = adapters_among(entries);
    assert(sorted(views(adapters@)));
    resolve_adapter_from(env, adapters.as_slice())
}

/// There is one way to sort: two sorted lists of the same names are the same list.
pub proof fn sorting_is_unique(a: Seq<Seq<char>>, b: Seq<Seq<char>>)
    requires
        sorted(a),
        sorted(b),
        a.to_multiset() == b.to_multiset(),
    ensures
        a == b,
    decreases a.len(),
{
    broadcast use vstd::seq_lib::group_to_multiset_ensures;

    assert(a.len() == a.to_multiset().len() && b.len() == b.to_multiset().len());
    if a.len() > 0 {
        let x = a.last();
        let y = b.last();
        assert(a.contains(x));
        assert(b.to_multiset().count(x) > 0);
        assert(b.contains(x));
        assert(b.contains(y));
        assert(a.to_multiset().count(y) > 0);
        assert(a.contains(y));
        let i = choose|i: int| 0 <= i < b.len() && b[i] == x;
        let j = choose|j: int| 0 <= j < a.len() && a[j] == y;
        order_is_irreflexive(x);
        assert(!before(y, x)) by {
            if i < b.len() - 1 {
                assert(!before(b[b.len() - 1], b[i]));
            }
        }
        assert(!before(x, y)) by {
            if j < a.len() - 1 {
                assert(!before(a[a.len() - 1], a[j]));
            }
        }
        order_is_total(x, y);
        let n = a.len() - 1;
        assert(a.remove(n) =~= a.drop_last());
        assert(b.remove(n) =~= b.drop_last());
        assert(a.drop_last().to_multiset() =~= a.to_multiset().remove(x));
        assert(b.drop_last().to_multiset() =~= b.to_multiset().remove(y));
        sorting_is_unique(a.drop_last(), b.drop_last());
        assert(a =~= a.drop_last().push(x));
        assert(b =~= b.drop_last().push(y));
    } else {
        assert(a =~= b);
    }
}

/// The adapters are the names that start with `hci`, wherever they stand, and no others.
pub proof fn adapters_are_named_hci(names: Seq<Seq<char>>, name: Seq<char>)
    ensures
        hci_names(names).contains(name) <==> names.contains(name) && exists|r: Seq<char>|
            name == #[trigger] ("hci"@ + r),
    decreases names.len(),
{
    searching_goes_by_the_characters(name, "hci"@);
    let all = hci_names(names);
    if names.len() > 0 {
        let front = names.drop_last();
        let head = hci_names(front);
        adapters_are_named_hci(front, name);
        if head.contains(name) {
            let i = choose|i: int| 0 <= i < head.len() && head[i] == name;
            assert(all[i] == name);
            let k = choose|k: int| 0 <= k < front.len() && front[k] == name;
            assert(names[k] == name);
        }
        if names.last() == name {
            assert(names[names.len() - 1] == name);
            if starts(name, "hci"@) {
                assert(all[head.len() as int] == name);
            }
        }
        if names.contains(name) && names.last() != name {
            let k = choose|k: int| 0 <= k < names.len() && names[k] == name;
            assert(front[k] == name);
        }
        if all.contains(name) && !head.contains(name) {
            let i = choose|i: int| 0 <= i < all.len() && all[i] == name;
            if i < head.len() {
                assert(head[i] == name);
            }
        }
    }
}

/// The adapter is the one that is asked for, where any is; else it is one of the adapters
/// of the directory, and none of these stands before it; `hci0` where there is none.
pub proof fn the_least_adapter_is_taken(
    env: Option<Seq<char>>,
    adapters: Seq<Seq<char>>,
    entries: Seq<Seq<char>>,
    other: Seq<char>,
)
    requires
        sorted(adapters),
        adapters.to_multiset() == hci_names(entries).to_multiset(),
    ensures
        env is Some && env->0.len() > 0 && !white(env->0[0]) && !white(env->0.last())
            ==> adapter_for(env, adapters) == env->0,
        env is Some && (exists|k: int| 0 <= k < env->0.len() && !white(#[trigger] env->0[k]))
            ==> adapter_for(env, adapters) == trimmed(env->0),
        (env is None || forall|k: int| 0 <= k < env->0.len() ==> white(#[trigger] env->0[k])) && (
        forall|k: int| 0 <= k < entries.len() ==> !starts(#[trigger] entries[k], "hci"@))
            ==> adapter_for(env, adapters) == "hci0"@,
        (env is None || forall|k: int| 0 <= k < env->0.len() ==> white(#[trigger] env->0[k]))
            && entries.contains(other) && starts(other, "hci"@) ==> entries.contains(
            adapter_for(env, adapters),
        ) && starts(adapter_for(env, adapters), "hci"@) && !before(
            other,
            adapter_for(env, adapters),
        ),
{
    broadcast use vstd::seq_lib::group_to_multiset_ensures;

    if env is Some {
        trimming_takes_white_space_off_the_ends(env->0);
    }
    let named = hci_names(entries);
    assert(adapters.len() == adapters.to_multiset().len());
    assert(named.len() == named.to_multiset().len());
    if forall|k: int| 0 <= k < entries.len() ==> !starts(#[trigger] entries[k], "hci"@) {
        if named.len() > 0 {
            assert(named.contains(named[0]));
            adapters_are_named_hci(entries, named[0]);
            searching_goes_by_the_characters(named[0], "hci"@);
            let k = choose|k: int| 0 <= k < entries.len() && entries[k] == named[0];
            assert(!starts(entries[k], "hci"@));
        }
    }
    if entries.contains(other) && starts(other, "hci"@) {
        searching_goes_by_the_characters(other, "hci"@);
        adapters_are_named_hci(entries, other);
        assert(named.contains(other));
        assert(named.to_multiset().count(other) > 0);
        assert(adapters.contains(other));
        let j = choose|j: int| 0 <= j < adapters.len() && adapters[j] == other;
        let first = adapters[0];
        assert(adapters.contains(first));
        assert(adapters.to_multiset().count(first) > 0);
        assert(named.contains(first));
        adapters_are_named_hci(entries, first);
        searching_goes_by_the_characters(first, "hci"@);
        order_is_irreflexive(first);
        if j > 0 {
            assert(!before(adapters[j], adapters[0]));
        }
    }
}

} // verus!
