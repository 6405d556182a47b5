//! Album art: the search URL, what a response says, and the URL of a larger image.
use vstd::prelude::*;
use vstd::utf8::encode_utf8;
use crate::json::{from_text, items_of, json_parsed, member, text_of, Json, JsonData};
use crate::text::{
    cat3, first_found, holds, lemma_first_found, occurs_at, opt_str_view, opt_view, parted_at, same, split_once_at, trim, trimmed,
};

verus! {

// ── The search URL ───────────────────────────────────────────────────────────

/// A character that stands for itself in a query.
pub open spec fn unreserved(b: u8) -> bool {
    0x41 <= b <= 0x5a || 0x61 <= b <= 0x7a || 0x30 <= b <= 0x39 || b == 0x2d || b == 0x5f || b
        == 0x2e || b == 0x7e
}

/// A hexadecimal digit.
pub open spec fn hex_of(n: u8) -> char {
    if n < 10 {
        (0x30 + n) as char
    } else {
        (0x37 + n) as char
    }
}

/// A byte as it stands in a query: itself, `+` for a space, or `%` and two digits.
pub open spec fn encoded_byte(b: u8) -> Seq<char> {
    if unreserved(b) {
        seq![b as char]
    } else if b == 0x20 {
        seq!['+']
    } else {
        seq!['%', hex_of((b / 16) as u8), hex_of((b % 16) as u8)]
    }
}

/// Bytes as they stand in a query.
pub open spec fn encoded(bytes: Seq<u8>) -> Seq<char>
    decreases bytes.len(),
{
    if bytes.len() == 0 {
        Seq::empty()
    } else {
        encoded(bytes.drop_last()) + encoded_byte(bytes.last())
    }
}

fn hex_digit(n: u8) -> (c: char)
    requires
        n < 16,
    ensures
        c == hex_of(n),
{
    if n < 10 {
        (0x30u8 + n) as char
    } else {
        (0x37u8 + n) as char
    }
}

/// Percent-encode a string for use as a URL query parameter value. Every byte that is
/// not unreserved (A-Z a-z 0-9 - _ . ~) is encoded; a space is a plus sign.
pub fn percent_encode(s: &str) -> (out: String)
    ensures
        out@ == encoded(encode_utf8(s@)),
{
    let bytes = s.as_bytes();
    let ghost all = encode_utf8(s@);
    let mut out = String::new();
    let mut i: usize = 0;
    assert(out@ =~= encoded(all.take(0)));
    while i < bytes.len()
        invariant
            i <= bytes@.len(),
            bytes@ == all,
            out@ == encoded(all.take(i as int)),
        decreases bytes@.len() - i,
    {
        assert(all.take(i + 1).drop_last() =~= all.take(i as int));
        let b: u8 = bytes[i];
        let ghost start = out@;
        if (b >= 0x41 && b <= 0x5a) || (b >= 0x61 && b <= 0x7a) || (b >= 0x30 && b <= 0x39) || b
            == 0x2d || b == 0x5f || b == 0x2e || b == 0x7e {
            out.push(b as char);
        } else if b == 0x20 {
            out.push('+');
        } else {
            out.push('%');
            out.push(hex_digit(b / 16));
            out.push(hex_digit(b % 16));
        }
        assert(out@ =~= start + encoded_byte(b));
        i = i + 1;
    }
    assert(all.take(all.len() as int) =~= all);
    out
}

/// A character that may stand in an encoded value.
pub open spec fn query_char(c: char) -> bool {
    (c as u32) < 0x80 && (unreserved(c as u8) || c == '+' || c == '%')
}

/// An encoded value holds unreserved characters, plus signs and percent signs, and
/// nothing that would end it or start another parameter.
pub proof fn encoded_values_stay_within_their_parameter(bytes: Seq<u8>)
    ensures
        forall|i: int| 0 <= i < encoded(bytes).len() ==> query_char(#[trigger] encoded(bytes)[i]),
    decreases bytes.len(),
{
    if bytes.len() > 0 {
        encoded_values_stay_within_their_parameter(bytes.drop_last());
        let b = bytes.last();
        let e = encoded_byte(b);
        assert(forall|n: u8| n < 16 ==> query_char(#[trigger] hex_of(n)));
        assert forall|i: int| 0 <= i < e.len() implies query_char(#[trigger] e[i]) by {
            if !unreserved(b) && b != 0x20 {
                assert((b / 16) < 16);
            }
        }
        let head = encoded(bytes.drop_last());
        assert forall|i: int| 0 <= i < encoded(bytes).len() implies query_char(
            #[trigger] encoded(bytes)[i],
        ) by {
            if i < head.len() {
                assert(encoded(bytes)[i] == head[i]);
            } else {
                assert(encoded(bytes)[i] == e[i - head.len()]);
            }
        }
    }
}

/// What is searched for: the album, or else the title, with the artist before it; or
/// the artist alone.
pub open spec fn search_term(artist: Seq<char>, album: Seq<char>, title: Seq<char>) -> Option<
    Seq<char>,
> {
    let work = if album.len() > 0 {
        album
    } else {
        title
    };
    if work.len() == 0 && artist.len() == 0 {
        None
    } else if work.len() == 0 {
        Some(artist)
    } else if artist.len() == 0 {
        Some(work)
    } else {
        Some(artist + " "@ + work)
    }
}

/// The search URL for a term.
pub open spec fn search_url(term: Seq<char>) -> Seq<char> {
    "https://itunes.apple.com/search?term="@ + encoded(encode_utf8(term))
        + "&entity=album&limit=1"@
}

/// Build the iTunes search URL for an artist and an album (or title).
///
/// The term is the artist and the album, or the title where there is no album, each
/// trimmed. Returns `None` where there is no text to search for.
pub fn itunes_query_url(artist: &str, album: &str, title: &str) -> (url: Option<String>)
    ensures
        opt_view(url) == (match search_term(trimmed(artist@), trimmed(album@), trimmed(title@)) {
            Some(term) => Some(search_url(term)),
            None => None,
        }),
{
    let artist = trim(artist);
    let album = trim(album);
    let title = trim(title);
    let work = if !album.as_str().is_empty() {
        album
    } else {
        title
    };
    let term = if work.as_str().is_empty() {
        if artist.as_str().is_empty() {
            return None;
        }
        artist
    } else if artist.as_str().is_empty() {
        work
    } else {
        cat3(artist.as_str(), " ", work.as_str())
    };
    Some(
        cat3(
            "https://itunes.apple.com/search?term=",
            percent_encode(term.as_str()).as_str(),
            "&entity=album&limit=1",
        ),
    )
}

/// There is a search URL wherever there is any text to search for.
pub proof fn any_text_can_be_searched(artist: Seq<char>, album: Seq<char>, title: Seq<char>)
    ensures
        search_term(artist, album, title) is None <==> artist.len() == 0 && album.len() == 0
            && title.len() == 0,
{
}

// ── The response ─────────────────────────────────────────────────────────────

/// The artwork of a result: `artworkUrl100`, or `artworkUrl60` where there is none.
pub open spec fn artwork_of(result: JsonData) -> Option<Seq<char>> {
    let field = match member(result, "artworkUrl100"@) {
        Some(f) => Some(f),
        None => member(result, "artworkUrl60"@),
    };
    match field {
        Some(f) => match text_of(f) {
            Some(url) => if url.len() > 0 {
                Some(url)
            } else {
                None
            },
            None => None,
        },
        None => None,
    }
}

/// The artwork of the first result of a response.
pub open spec fn artwork_in(response: JsonData) -> Option<Seq<char>> {
    match member(response, "results"@) {
        Some(results) => match items_of(results) {
            Some(items) => if items.len() > 0 {
                artwork_of(items[0])
            } else {
                None
            },
            None => None,
        },
        None => None,
    }
}

/// Find the artwork in a response that has been read.
pub fn itunes_artwork_in(response: &Json) -> (url: Option<String>)
    ensures
        opt_view(url) == artwork_in(response@),
{
    let results = match response.get("results") {
        Some(r) => r,
        None => {
            return None;
        },
    };
    let items = match results.as_array() {
        Some(items) => items,
        None => {
            return None;
        },
    };
    if items.len() == 0 {
        return None;
    }
    assert(items@[0]@ == crate::json::array_data(items@)[0]);
    let result = &items[0];
    let field = match result.get("artworkUrl100") {
        Some(f) => f,
        None => match result.get("artworkUrl60") {
            Some(f) => f,
            None => {
                return None;
            },
        },
    };
    match field.as_str() {
        Some(url) => if url.is_empty() {
            None
        } else {
            Some(url.to_owned())
        },
        None => None,
    }
}

/// The artwork in the text of a response.
pub open spec fn artwork_in_text(text: Seq<char>) -> Option<Seq<char>> {
    match json_parsed(text) {
        Some(response) => artwork_in(response),
        None => None,
    }
}

/// Parse an iTunes search response and return the artwork URL from
/// `results[0].artworkUrl100` (or `artworkUrl60`). Returns `None` on malformed JSON,
/// empty results or a missing field.
pub fn parse_itunes_artwork(json: &str) -> (url: Option<String>)
    ensures
        opt_view(url) == artwork_in_text(json@),
{
    match from_text(json) {
        Some(response) => itunes_artwork_in(&response),
        None => None,
    }
}

// ── A larger image ───────────────────────────────────────────────────────────

/// The size that is asked for.
pub const LARGE_SIZE: &'static str = "600x600bb";

/// The URL with the first `token` replaced by the large size.
pub open spec fn resized(url: Seq<char>, token: Seq<char>) -> Option<Seq<char>> {
    match parted_at(url, token) {
        Some((a, b)) => Some(a + LARGE_SIZE@ + b),
        None => None,
    }
}

/// The URL of the large image: the first known size token replaced.
pub open spec fn upscaled(url: Seq<char>) -> Seq<char> {
    if resized(url, "100x100bb"@) is Some {
        resized(url, "100x100bb"@)->0
    } else if resized(url, "100x100"@) is Some {
        resized(url, "100x100"@)->0
    } else if resized(url, "60x60bb"@) is Some {
        resized(url, "60x60bb"@)->0
    } else if resized(url, "60x60"@) is Some {
        resized(url, "60x60"@)->0
    } else {
        url
    }
}

fn resize(url: &str, token: &str) -> (out: Option<String>)
    ensures
        opt_view(out) == resized(url@, token@),
{
    match split_once_at(url, token) {
        Some((a, b)) => Some(cat3(a.as_str(), LARGE_SIZE, b.as_str())),
        None => None,
    }
}

/// Replace the thumbnail size in an iTunes artwork URL with `600x600`: the same image
/// is served larger when its size token is changed. A URL without a known size token
/// is returned as it is.
pub fn upscale_artwork_url(url: &str) -> (out: String)
    ensures
        out@ == upscaled(url@),
{
    if let Some(out) = resize(url, "100x100bb") {
        return out;
    }
    if let Some(out) = resize(url, "100x100") {
        return out;
    }
    if let Some(out) = resize(url, "60x60bb") {
        return out;
    }
    if let Some(out) = resize(url, "60x60") {
        return out;
    }
    url.to_owned()
}

// ── The lookup ───────────────────────────────────────────────────────────────

/// Seconds that a lookup may take.
pub const LOOKUP_TIMEOUT_SECS: u64 = 4;

/// Where to look for the artwork of a track: nowhere if `SOUNDSYNC_ARTWORK` is `off`
/// or there is nothing to search for.
pub fn lookup_url(setting: Option<&str>, artist: &str, album: &str, title: &str) -> (url: Option<
    String,
>)
    ensures
        opt_view(url) == (if opt_str_view(setting) == Some("off"@) {
            None
        } else {
            match search_term(trimmed(artist@), trimmed(album@), trimmed(title@)) {
                Some(term) => Some(search_url(term)),
                None => None,
            }
        }),
{
    if let Some(s) = setting {
        if same(s, "off") {
            return None;
        }
    }
    itunes_query_url(artist, album, title)
}

/// The large image that a response offers.
pub fn artwork_from(body: &str) -> (url: Option<String>)
    ensures
        opt_view(url) == (match artwork_in_text(body@) {
            Some(url) => Some(upscaled(url)),
            None => None,
        }),
{
    match parse_itunes_artwork(body) {
        Some(url) => Some(upscale_artwork_url(url.as_str())),
        None => None,
    }
}

// ── Laws ─────────────────────────────────────────────────────────────────────

/// Letters, digits and the signs `-`, `_`, `.` and `~` stand for themselves, a space is a
/// plus sign, and any other byte is a percent sign and its two hexadecimal digits, of
/// which it can be read back.
pub proof fn encoded_bytes_read_back(b: u8)
    ensures
        (0x41 <= b <= 0x5a || 0x61 <= b <= 0x7a || 0x30 <= b <= 0x39 || b == 0x2d || b == 0x5f || b
            == 0x2e || b == 0x7e) ==> encoded_byte(b) == seq![b as char],
        b == 0x20 ==> encoded_byte(b) == seq!['+'],
        !(0x41 <= b <= 0x5a || 0x61 <= b <= 0x7a || 0x30 <= b <= 0x39 || b == 0x2d || b == 0x5f || b
            == 0x2e || b == 0x7e) && b != 0x20 ==> {
            let e = encoded_byte(b);
            let high = if e[1] as u32 <= 0x39 {
                e[1] as u32 - 0x30
            } else {
                e[1] as u32 - 0x37
            };
            let low = if e[2] as u32 <= 0x39 {
                e[2] as u32 - 0x30
            } else {
                e[2] as u32 - 0x37
            };
            &&& e.len() == 3 && e[0] == '%'
            &&& 0 <= high < 16 && 0 <= low < 16
            &&& high * 16 + low == b
        },
{
}

/// What is encoded piece by piece is encoded as a whole.
pub proof fn encoding_goes_byte_by_byte(a: Seq<u8>, b: Seq<u8>)
    ensures
        encoded(a + b) == encoded(a) + encoded(b),
        forall|x: u8| encoded(#[trigger] seq![x]) == encoded_byte(x),
    decreases b.len(),
{
    assert forall|x: u8| encoded(#[trigger] seq![x]) == encoded_byte(x) by {
        assert(seq![x].drop_last() =~= Seq::<u8>::empty());
        assert(encoded(Seq::<u8>::empty()) + encoded_byte(x) =~= encoded_byte(x));
    }
    if b.len() > 0 {
        encoding_goes_byte_by_byte(a, b.drop_last());
        assert((a + b).drop_last() =~= a + b.drop_last());
        assert((a + b).last() == b.last());
        assert(encoded(a) + (encoded(b.drop_last()) + encoded_byte(b.last())) =~= (encoded(a)
            + encoded(b.drop_last())) + encoded_byte(b.last()));
    } else {
        assert(a + b =~= a);
        assert(encoded(a) + encoded(b) =~= encoded(a));
    }
}

/// What is searched for is the album, or the title where there is no album, with the
/// artist before it where there is one.
pub proof fn albums_are_searched_before_titles(
    artist: Seq<char>,
    album: Seq<char>,
    title: Seq<char>,
)
    ensures
        artist.len() > 0 && album.len() > 0 ==> search_term(artist, album, title) == Some(
            artist + " "@ + album,
        ),
        artist.len() > 0 && album.len() == 0 && title.len() > 0 ==> search_term(artist, album, title)
            == Some(artist + " "@ + title),
        artist.len() == 0 && album.len() > 0 ==> search_term(artist, album, title) == Some(album),
        artist.len() == 0 && album.len() == 0 && title.len() > 0 ==> search_term(
            artist,
            album,
            title,
        ) == Some(title),
        artist.len() > 0 && album.len() == 0 && title.len() == 0 ==> search_term(
            artist,
            album,
            title,
        ) == Some(artist),
{
}

/// The artwork of a response is that of its first result: the larger one where the result
/// states it, else the smaller one, where it is a text that is not empty.
pub proof fn the_first_result_gives_the_artwork(
    outer: Map<Seq<char>, JsonData>,
    items: Seq<JsonData>,
    first: Map<Seq<char>, JsonData>,
    url: Seq<char>,
)
    requires
        outer.contains_key("results"@) && outer["results"@] == JsonData::Array(items),
        items.len() > 0,
        items[0] == JsonData::Object(first),
    ensures
        first.contains_key("artworkUrl100"@) && first["artworkUrl100"@] == JsonData::Text(url)
            && url.len() > 0 ==> artwork_in(JsonData::Object(outer)) == Some(url),
        !first.contains_key("artworkUrl100"@) && first.contains_key("artworkUrl60"@)
            && first["artworkUrl60"@] == JsonData::Text(url) && url.len() > 0 ==> artwork_in(
            JsonData::Object(outer),
        ) == Some(url),
        !first.contains_key("artworkUrl100"@) && !first.contains_key("artworkUrl60"@) ==> artwork_in(
            JsonData::Object(outer),
        ) is None,
        artwork_in(JsonData::Object(outer)) matches Some(u) ==> u.len() > 0,
{
}

/// A response without results gives no artwork.
pub proof fn without_results_there_is_no_artwork(response: JsonData)
    ensures
        artwork_in(response) is Some ==> response is Object && response->Object_0.contains_key(
            "results"@,
        ) && response->Object_0["results"@] is Array
            && response->Object_0["results"@]->Array_0.len() > 0,
{
}

/// The first size token of a URL is replaced by the large size, and nothing else changes;
/// a URL without one is kept.
pub proof fn only_the_size_is_changed(url: Seq<char>, a: Seq<char>, b: Seq<char>)
    ensures
        url == a + "100x100bb"@ + b && first_found(url, "100x100bb"@) == Some(a.len() as int)
            ==> upscaled(url) == a + "600x600bb"@ + b,
        url == a + "60x60bb"@ + b && first_found(url, "60x60bb"@) == Some(a.len() as int) && !holds(
            url,
            "100x100bb"@,
        ) && !holds(url, "100x100"@) ==> upscaled(url) == a + "600x600bb"@ + b,
        !holds(url, "100x100bb"@) && !holds(url, "100x100"@) && !holds(url, "60x60bb"@) && !holds(
            url,
            "60x60"@,
        ) ==> upscaled(url) == url,
        upscaled(url) == url || holds(upscaled(url), "600x600bb"@),
{
    lemma_first_found(url, "100x100bb"@);
    lemma_first_found(url, "100x100"@);
    lemma_first_found(url, "60x60bb"@);
    lemma_first_found(url, "60x60"@);
    if url == a + "100x100bb"@ + b {
        assert(url.take(a.len() as int) =~= a);
        assert(url.skip(a.len() as int + "100x100bb"@.len()) =~= b);
    }
    if url == a + "60x60bb"@ + b {
        assert(url.take(a.len() as int) =~= a);
        assert(url.skip(a.len() as int + "60x60bb"@.len()) =~= b);
    }
    lemma_holds_the_size(url, "100x100bb"@);
    lemma_holds_the_size(url, "100x100"@);
    lemma_holds_the_size(url, "60x60bb"@);
    lemma_holds_the_size(url, "60x60"@);
}

proof fn lemma_holds_the_size(url: Seq<char>, token: Seq<char>)
    ensures
        resized(url, token) matches Some(u) ==> holds(u, "600x600bb"@),
{
    if let Some(u) = resized(url, token) {
        let (a, b) = parted_at(url, token)->0;
        let n = a.len() as int;
        assert(u.subrange(n, n + "600x600bb"@.len()) =~= "600x600bb"@);
        assert(occurs_at(u, "600x600bb"@, n));
    }
}

/// The search URL asks for one album, with the term encoded as its parameter.
pub proof fn the_term_is_the_parameter(term: Seq<char>)
    ensures
        search_url(term) == "https://itunes.apple.com/search?term="@ + encoded(encode_utf8(term))
            + "&entity=album&limit=1"@,
{
}

/// The artwork of a text is that of the document that it holds, and none where it holds
/// none.
pub proof fn responses_are_read_as_documents(text: Seq<char>)
    ensures
        json_parsed(text) is None ==> artwork_in_text(text) is None,
        json_parsed(text) matches Some(response) ==> artwork_in_text(text) == artwork_in(response),
{
}

} // verus!
