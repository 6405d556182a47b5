//! The WirePlumber version, and the configuration format that it calls for.
use vstd::prelude::*;
use crate::text::{decimal, digits_have_their_places, texts_part_at_the_first_separator, written_numbers_read_back, parse_u32, parsed, pieces, split, views, words, words_of};

verus! {

#[derive(Debug, Clone, Copy, PartialEq, Eq, Structural)]
pub enum ConfigFormat {
    /// WirePlumber 0.4.x: Lua under bluetooth.lua.d
    Lua,
    /// WirePlumber 0.5 and later: SPA-JSON under wireplumber.conf.d
    SpaJson,
}

#[derive(Debug, Clone, Copy, PartialEq, Eq, Structural)]
pub struct WpVersion {
    pub major: u32,
    pub minor: u32,
}

/// The version that a word gives: two numbers with a dot between them, whatever may
/// follow after another dot.
pub open spec fn version_of(word: Seq<char>) -> Option<WpVersion> {
    let p = pieces(word, '.');
    if p.len() >= 2 {
        match (parsed(p[0], u32::MAX as nat), parsed(p[1], u32::MAX as nat)) {
            (Some(major), Some(minor)) => Some(
                WpVersion { major: major as u32, minor: minor as u32 },
            ),
            _ => None,
        }
    } else {
        None
    }
}

/// The version of the first word, from `i` on, that gives one.
pub open spec fn version_from(words: Seq<Seq<char>>, i: int) -> Option<WpVersion>
    decreases words.len() - i,
{
    if i < 0 || i >= words.len() {
        None
    } else if version_of(words[i]) is Some {
        version_of(words[i])
    } else {
        version_from(words, i + 1)
    }
}

/// The version that a text tells.
pub open spec fn version_in(text: Seq<char>) -> Option<WpVersion> {
    version_from(words_of(text), 0)
}

fn parse_word(word: &str) -> (version: Option<WpVersion>)
    ensures
        version == version_of(word@),
{
    let p = split(word, '.');
    let ghost v = views(p@);
    if p.len() < 2 {
        return None;
    }
    assert(v[0] == p@[0]@ && v[1] == p@[1]@);
    match parse_u32(p[0].as_str()) {
        Some(major) => match parse_u32(p[1].as_str()) {
            Some(minor) => Some(WpVersion { major, minor }),
            None => None,
        },
        None => None,
    }
}

/// The format that a version calls for.
pub open spec fn format_of(v: WpVersion) -> ConfigFormat {
    if v.major > 0 || v.minor >= 5 {
        ConfigFormat::SpaJson
    } else {
        ConfigFormat::Lua
    }
}

impl WpVersion {
    /// Parse the first `MAJOR.MINOR` word from `wireplumber --version` output.
    pub fn parse(output: &str) -> (version: Option<WpVersion>)
        ensures
            version == version_in(output@),
    {
        let ws = words(output);
        let ghost wv = views(ws@);
        let mut i: usize = 0;
        while i < ws.len()
            invariant
                i <= ws@.len(),
                wv == views(ws@),
                version_in(output@) == version_from(wv, i as int),
            decreases ws@.len() - i,
        {
            assert(wv[i as int] == ws@[i as int]@);
            let version = parse_word(ws[i].as_str());
            if version.is_some() {
                return version;
            }
            i = i + 1;
        }
        None
    }

    /// From 0.5 on SPA-JSON; before that Lua.
    pub fn config_format(self) -> (format: ConfigFormat)
        ensures
            format == format_of(self),
    {
        if self.major > 0 || self.minor >= 5 {
            ConfigFormat::SpaJson
        } else {
            ConfigFormat::Lua
        }
    }
}

/// A word of two numbers with a dot between them gives these as the version, and so it does
/// where more follows after another dot.
pub proof fn versions_read_back(major: u32, minor: u32, rest: Seq<char>)
    ensures
        version_of(decimal(major as nat) + seq!['.'] + decimal(minor as nat)) == Some(
            WpVersion { major, minor },
        ),
        version_of(decimal(major as nat) + seq!['.'] + decimal(minor as nat) + seq!['.'] + rest) == Some(
            WpVersion { major, minor },
        ),
        version_of(decimal(major as nat)) is None,
{
    let a = decimal(major as nat);
    let b = decimal(minor as nat);
    lemma_no_dot(major as nat);
    lemma_no_dot(minor as nat);
    written_numbers_read_back(major as nat, u32::MAX as nat);
    written_numbers_read_back(minor as nat, u32::MAX as nat);
    let tail = b + seq!['.'] + rest;
    assert(a + seq!['.'] + b + seq!['.'] + rest =~= a + seq!['.'] + tail);
    texts_part_at_the_first_separator(a, '.', tail);
    texts_part_at_the_first_separator(a, '.', b);
    texts_part_at_the_first_separator(b, '.', rest);
    assert(pieces(b, '.') == seq![b]);
    let p = pieces(a + seq!['.'] + tail, '.');
    assert(p[0] == a && p[1] == b);
    let q = pieces(a + seq!['.'] + b, '.');
    assert(q[0] == a && q[1] == b);
}

proof fn lemma_no_dot(n: nat)
    ensures
        !decimal(n).contains('.'),
{
    digits_have_their_places(n);
    if decimal(n).contains('.') {
        let k = choose|k: int| 0 <= k < decimal(n).len() && decimal(n)[k] == '.';
        assert(0x30 <= decimal(n)[k] as u32 <= 0x39);
    }
}

/// The version of a text is that of the first of its words that gives one, wherever it
/// stands; there is none only where no word does.
pub proof fn the_first_version_counts(text: Seq<char>)
    ensures
        version_in(text) is None <==> forall|k: int|
            0 <= k < words_of(text).len() ==> version_of(#[trigger] words_of(text)[k]) is None,
        version_in(text) is Some ==> exists|i: int|
            0 <= i < words_of(text).len() && version_of(#[trigger] words_of(text)[i]) == version_in(
                text,
            ) && forall|k: int| 0 <= k < i ==> version_of(#[trigger] words_of(text)[k]) is None,
{
    lemma_version_from(words_of(text), 0);
}

proof fn lemma_version_from(ws: Seq<Seq<char>>, from: int)
    requires
        0 <= from <= ws.len(),
    ensures
        version_from(ws, from) is None <==> forall|k: int|
            from <= k < ws.len() ==> version_of(#[trigger] ws[k]) is None,
        version_from(ws, from) is Some ==> exists|i: int|
            from <= i < ws.len() && version_of(#[trigger] ws[i]) == version_from(ws, from) && forall|
                k: int,
            |
                from <= k < i ==> version_of(#[trigger] ws[k]) is None,
    decreases ws.len() - from,
{
    if from < ws.len() {
        lemma_version_from(ws, from + 1);
        assert(version_of(ws[from]) is Some || version_of(ws[from]) is None);
    }
}

/// From 0.5 on the configuration is SPA-JSON, and stays so in every later version; before
/// that it is Lua.
pub proof fn formats_change_with_the_fifth_minor(v: WpVersion, w: WpVersion)
    ensures
        format_of(v) == ConfigFormat::Lua <==> v.major == 0 && v.minor < 5,
        format_of(v) == ConfigFormat::SpaJson && (w.major > v.major || (w.major == v.major && w.minor
            >= v.minor)) ==> format_of(w) == ConfigFormat::SpaJson,
{
}

} // verus!
