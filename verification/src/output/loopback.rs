//! `module-loopback` command builders: the loopback copies the captured audio to
//! a sink of the user's choice.
use vstd::prelude::*;
use crate::text::{
    cat2, decimal, digits_have_their_places, parse_u32, parsed, surrounding_white_space_does_not_matter,
    trim, trimmed, trimming_takes_white_space_off_the_ends, views, white, written_numbers_read_back,
};

verus! {

/// The monitor source that carries the captured audio to any number of
/// loopback consumers.
pub const CAPTURE_MONITOR: &'static str = "soundsync-capture.monitor";

/// The arguments that load a loopback from the capture monitor to `sink`.
pub open spec fn loopback_args(sink: Seq<char>) -> Seq<Seq<char>> {
    seq![
        "load-module"@,
        "module-loopback"@,
        "source="@ + CAPTURE_MONITOR@,
        "sink="@ + sink,
        "sink_dont_move=true"@,
        "source_dont_move=true"@,
    ]
}

/// Build the `pactl` arguments for a loopback from [`CAPTURE_MONITOR`] to `sink`.
///
/// The `*_dont_move` flags keep PipeWire from re-routing the loopback when a
/// default changes.
pub fn build_loopback_args(sink: &str) -> (args: Vec<String>)
    ensures
        views(args@) == loopback_args(sink@),
{
    let mut args: Vec<String> = Vec::new();
    args.push("load-module".to_owned());
    args.push("module-loopback".to_owned());
    args.push(cat2("source=", CAPTURE_MONITOR));
    args.push(cat2("sink=", sink));
    args.push("sink_dont_move=true".to_owned());
    args.push("source_dont_move=true".to_owned());
    assert(views(args@) =~= loopback_args(sink@));
    args
}

/// The module id that `pactl load-module` printed: a bare number.
pub open spec fn printed_id(stdout: Seq<char>) -> Option<nat> {
    parsed(trimmed(stdout), u32::MAX as nat)
}

/// Read the module id that `pactl load-module` printed.
pub fn parse_loopback_module_id(load_output: &str) -> (id: Option<u32>)
    ensures
        match id {
            Some(n) => printed_id(load_output@) == Some(n as nat),
            None => printed_id(load_output@) is None,
        },
{
    parse_u32(trim(load_output).as_str())
}

/// Whatever white space stands around it, the number that `pactl` prints is read as the
/// id of the module.
pub proof fn printed_ids_read_back(a: Seq<char>, n: u32, b: Seq<char>)
    requires
        forall|k: int| 0 <= k < a.len() ==> white(#[trigger] a[k]),
        forall|k: int| 0 <= k < b.len() ==> white(#[trigger] b[k]),
    ensures
        printed_id(a + decimal(n as nat) + b) == Some(n as nat),
{
    surrounding_white_space_does_not_matter(a, decimal(n as nat), b);
    lemma_nothing_to_trim(n as nat);
    written_numbers_read_back(n as nat, u32::MAX as nat);
}

proof fn lemma_nothing_to_trim(n: nat)
    ensures
        trimmed(decimal(n)) == decimal(n),
{
    let d = decimal(n);
    digits_have_their_places(n);
    assert(0x30 <= d[0] as u32 <= 0x39);
    assert(0x30 <= d[d.len() - 1] as u32 <= 0x39);
    assert(!white(d[0]) && !white(d.last()));
    trimming_takes_white_space_off_the_ends(d);
}

/// A loopback copies the captured audio to the sink that is named, and stays there.
pub proof fn loopbacks_go_from_the_capture_to_the_sink(sink: Seq<char>)
    ensures
        loopback_args(sink).len() == 6,
        loopback_args(sink)[0] == "load-module"@,
        loopback_args(sink)[1] == "module-loopback"@,
        loopback_args(sink)[2] == "source="@ + "soundsync-capture.monitor"@,
        loopback_args(sink)[3] == "sink="@ + sink,
        loopback_args(sink).contains("sink_dont_move=true"@),
        loopback_args(sink).contains("source_dont_move=true"@),
{
    assert(loopback_args(sink)[4] == "sink_dont_move=true"@);
    assert(loopback_args(sink)[5] == "source_dont_move=true"@);
}

} // verus!
