//! BlueZ MAC address to and from D-Bus object path.
use vstd::prelude::*;
use crate::text::{
    cat3, first_at, lemma_first_at, lemma_first_at_is, opt_view, pieces, replace_char, split, starts, strip_prefix,
    swapped, views,
};

verus! {

/// The first segment, from `i` on, that names a device.
pub open spec fn device_segment(segments: Seq<Seq<char>>, i: int) -> Option<Seq<char>>
    decreases segments.len() - i,
{
    if i < 0 || i >= segments.len() {
        None
    } else if starts(segments[i], "dev_"@) {
        Some(segments[i])
    } else {
        device_segment(segments, i + 1)
    }
}

/// The address in the first `dev_` segment of a path.
pub open spec fn path_address(path: Seq<char>) -> Option<Seq<char>> {
    match device_segment(pieces(path, '/'), 0) {
        Some(seg) => Some(swapped(seg.skip(4), '_', ':')),
        None => None,
    }
}

/// `/org/bluez/hci0/dev_AA_BB_..` -> `AA:BB:..` (also works on transport paths,
/// where more segments follow).
pub fn address_from_path(path: &str) -> (out: Option<String>)
    ensures
        opt_view(out) == path_address(path@),
{
    let segments = split(path, '/');
    let ghost sv = views(segments@);
    proof {
        reveal_strlit("dev_");
    }
    let mut i: usize = 0;
    while i < segments.len()
        invariant
            i <= segments@.len(),
            "dev_"@.len() == 4,
            sv == views(segments@),
            path_address(path@) == (match device_segment(sv, i as int) {
                Some(seg) => Some(swapped(seg.skip(4), '_', ':')),
                None => None,
            }),
        decreases segments@.len() - i,
    {
        assert(sv[i as int] == segments@[i as int]@);
        if let Some(mac) = strip_prefix(segments[i].as_str(), "dev_") {
            return Some(replace_char(mac.as_str(), '_', ':'));
        }
        i = i + 1;
    }
    None
}

/// The object path of a device.
pub open spec fn device_path(adapter_path: Seq<char>, address: Seq<char>) -> Seq<char> {
    adapter_path + "/dev_"@ + swapped(address, ':', '_')
}

/// `("/org/bluez/hci0", "AA:BB:..")` -> `/org/bluez/hci0/dev_AA_BB_..`.
pub fn path_from_address(adapter_path: &str, address: &str) -> (out: String)
    ensures
        out@ == device_path(adapter_path@, address@),
{
    cat3(adapter_path, "/dev_", replace_char(address, ':', '_').as_str())
}

/// Whether no segment of an adapter path looks like a device.
pub open spec fn plain_adapter(adapter_path: Seq<char>) -> bool {
    forall|k: int|
        0 <= k < pieces(adapter_path, '/').len() ==> !starts(
            #[trigger] pieces(adapter_path, '/')[k],
            "dev_"@,
        )
}

proof fn lemma_pieces_append(a: Seq<char>, b: Seq<char>)
    ensures
        pieces(a + seq!['/'] + b, '/') == pieces(a, '/') + pieces(b, '/'),
    decreases a.len(),
{
    let s = a + seq!['/'] + b;
    lemma_first_at(a, '/');
    let i = first_at(a, '/') as int;
    assert(s.len() == a.len() + 1 + b.len());
    assert(forall|k: int| 0 <= k < a.len() ==> s[k] == a[k]);
    assert(s[a.len() as int] == '/');
    lemma_first_at_is(s, '/', i);
    assert(s.take(i) =~= a.take(i));
    if i < a.len() {
        let rest = a.skip(i + 1);
        assert(s.skip(i + 1) =~= rest + seq!['/'] + b);
        lemma_pieces_append(rest, b);
        assert(seq![a.take(i)] + (pieces(rest, '/') + pieces(b, '/')) =~= (seq![a.take(i)] + pieces(
            rest,
            '/',
        )) + pieces(b, '/'));
    } else {
        assert(a.take(i) =~= a);
        assert(s.skip(i + 1) =~= b);
    }
}

proof fn lemma_one_piece(b: Seq<char>)
    requires
        !b.contains('/'),
    ensures
        pieces(b, '/') == seq![b],
{
    lemma_first_at(b, '/');
    if first_at(b, '/') < b.len() {
        assert(b.contains(b[first_at(b, '/') as int]));
    }
}

proof fn lemma_device_segment(segments: Seq<Seq<char>>, i: int, n: int)
    requires
        0 <= i <= n < segments.len(),
        starts(segments[n], "dev_"@),
        forall|k: int| 0 <= k < n ==> !starts(#[trigger] segments[k], "dev_"@),
    ensures
        device_segment(segments, i) == Some(segments[n]),
    decreases n - i,
{
    if i < n {
        lemma_device_segment(segments, i + 1, n);
    }
}

/// The segment that names a device.
spec fn segment_of(address: Seq<char>) -> Seq<char> {
    "dev_"@ + swapped(address, ':', '_')
}

proof fn lemma_segment(adapter_path: Seq<char>, address: Seq<char>)
    requires
        !address.contains('/'),
        !address.contains('_'),
    ensures
        pieces(device_path(adapter_path, address), '/') == pieces(adapter_path, '/').push(
            segment_of(address),
        ),
        starts(segment_of(address), "dev_"@),
        swapped(segment_of(address).skip(4), '_', ':') == address,
{
    reveal_strlit("/dev_");
    reveal_strlit("dev_");
    let mac = swapped(address, ':', '_');
    let seg = segment_of(address);
    assert("/dev_"@ =~= seq!['/'] + "dev_"@);
    assert(device_path(adapter_path, address) =~= adapter_path + seq!['/'] + seg);
    assert forall|k: int| 0 <= k < seg.len() implies seg[k] != '/' by {
        if k >= 4 {
            assert(seg[k] == mac[k - 4]);
            assert(address.contains(address[k - 4]));
        }
    }
    assert(!seg.contains('/'));
    lemma_pieces_append(adapter_path, seg);
    lemma_one_piece(seg);
    assert(pieces(adapter_path, '/') + seq![seg] =~= pieces(adapter_path, '/').push(seg));
    assert(seg.take(4) =~= "dev_"@);
    assert(seg.skip(4) =~= mac);
    assert forall|k: int| 0 <= k < address.len() implies swapped(mac, '_', ':')[k]
        == address[k] by {
        assert(address.contains(address[k]));
    }
    assert(swapped(mac, '_', ':') =~= address);
}

/// The address in the path of a device is the address that the path was made
/// from: for every adapter path without a device segment of its own, and every
/// address without slashes and underscores.
pub proof fn paths_give_the_address_back(adapter_path: Seq<char>, address: Seq<char>)
    requires
        plain_adapter(adapter_path),
        !address.contains('/'),
        !address.contains('_'),
    ensures
        path_address(device_path(adapter_path, address)) == Some(address),
{
    lemma_segment(adapter_path, address);
    let n = pieces(adapter_path, '/').len() as int;
    let segments = pieces(adapter_path, '/').push(segment_of(address));
    assert(forall|k: int| 0 <= k < n ==> #[trigger] segments[k] == pieces(adapter_path, '/')[k]);
    lemma_device_segment(segments, 0, n);
}

/// What follows the device in a path, such as the `/sep1/fd0` of a transport, makes no
/// difference: the address is still the one that the path was made from.
pub proof fn transport_paths_give_the_address_back(
    adapter_path: Seq<char>,
    address: Seq<char>,
    below: Seq<char>,
)
    requires
        plain_adapter(adapter_path),
        !address.contains('/'),
        !address.contains('_'),
    ensures
        path_address(device_path(adapter_path, address) + seq!['/'] + below) == Some(address),
{
    lemma_segment(adapter_path, address);
    lemma_pieces_append(device_path(adapter_path, address), below);
    let n = pieces(adapter_path, '/').len() as int;
    let segments = pieces(adapter_path, '/').push(segment_of(address)) + pieces(below, '/');
    assert(forall|k: int| 0 <= k < n ==> #[trigger] segments[k] == pieces(adapter_path, '/')[k]);
    assert(segments[n] == segment_of(address));
    lemma_device_segment(segments, 0, n);
}

} // verus!
