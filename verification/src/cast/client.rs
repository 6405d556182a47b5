//! URL helpers and the logic of a cast session: which messages open it, how
//! incoming ones are answered, and what keeps it alive.
use vstd::prelude::*;
use vstd::slice::slice_subrange;
use crate::cast::messages::{close, connect, launch, a_load_names_its_stream, launch_data, launched, launched_in, load, load_data, message_kind, requests_say_what_they_ask_for, message_type, parse_launched_transport_id, ping, pong, DEFAULT_MEDIA_RECEIVER_APP_ID, NS_CONNECTION, NS_HEARTBEAT, NS_MEDIA, NS_RECEIVER};
use crate::cast::proto::{decode_frame, framed, string_message, string_message_data, CastMessage, MessageData};
use crate::json::{json_parsed, json_written, JsonData, NumberData};
use crate::text::{cat5, decimal, is_some_text, opt_view, parse_u8, parsed, pieces, render, same, split, starts, starts_with, texts_part_at_the_first_separator, views, words, words_of};

verus! {

// ── URL helpers ──────────────────────────────────────────────────────────────

/// Whether a token is four decimal octets separated by dots.
pub open spec fn is_ipv4(token: Seq<char>) -> bool {
    let parts = pieces(token, '.');
    parts.len() == 4 && forall|k: int|
        0 <= k < 4 ==> parsed(#[trigger] parts[k], u8::MAX as nat) is Some
}

/// Whether a token is an IPv4 address that is neither loopback nor link-local.
pub open spec fn is_usable(token: Seq<char>) -> bool {
    is_ipv4(token) && !starts(token, "127."@) && !starts(token, "169.254."@)
}

/// Whether a token is within `172.16.0.0/12`.
pub open spec fn is_private_172(token: Seq<char>) -> bool {
    let parts = pieces(token, '.');
    &&& parts.len() >= 2
    &&& parts[0] == "172"@
    &&& match parsed(parts[1], u8::MAX as nat) {
        Some(b) => 16 <= b <= 31,
        None => false,
    }
}

/// Whether a token is an address of a private range.
pub open spec fn is_private(token: Seq<char>) -> bool {
    starts(token, "192.168."@) || starts(token, "10."@) || is_private_172(token)
}

/// The first usable address, from token `i` on; private ones only if so asked.
pub open spec fn first_usable(tokens: Seq<Seq<char>>, i: int, private: bool) -> Option<Seq<char>>
    decreases tokens.len() - i,
{
    if i < 0 || i >= tokens.len() {
        None
    } else if is_usable(tokens[i]) && (private ==> is_private(tokens[i])) {
        Some(tokens[i])
    } else {
        first_usable(tokens, i + 1, private)
    }
}

/// The address to be reached at: the first usable private one, or else the first
/// usable one.
pub open spec fn lan_ip_in(output: Seq<char>) -> Option<Seq<char>> {
    match first_usable(words_of(output), 0, true) {
        Some(ip) => Some(ip),
        None => first_usable(words_of(output), 0, false),
    }
}

fn looks_like_ipv4(token: &str) -> (r: bool)
    ensures
        r == is_ipv4(token@),
{
    let parts = split(token, '.');
    let ghost pv = views(parts@);
    if parts.len() != 4 {
        return false;
    }
    let mut i: usize = 0;
    while i < 4
        invariant
            i <= 4,
            parts@.len() == 4,
            pv == views(parts@),
            pv == pieces(token@, '.'),
            forall|k: int| 0 <= k < i ==> parsed(#[trigger] pv[k], u8::MAX as nat) is Some,
        decreases 4 - i,
    {
        assert(pv[i as int] == parts@[i as int]@);
        if parse_u8(parts[i].as_str()).is_none() {
            return false;
        }
        i = i + 1;
    }
    true
}

/// Return `true` for `172.16.0.0/12` (172.16.x.x – 172.31.x.x).
pub fn is_rfc1918_172(addr: &str) -> (r: bool)
    ensures
        r == is_private_172(addr@),
{
    let parts = split(addr, '.');
    let ghost pv = views(parts@);
    if parts.len() < 2 {
        return false;
    }
    assert(pv[0] == parts@[0]@);
    assert(pv[1] == parts@[1]@);
    if !same(parts[0].as_str(), "172") {
        return false;
    }
    match parse_u8(parts[1].as_str()) {
        Some(b) => 16 <= b && b <= 31,
        None => false,
    }
}

/// Extract the first usable LAN IPv4 from the output of `hostname -I`, which
/// prints space-separated addresses. Loopback and link-local addresses are not
/// usable; a private-range address is preferred. `None` if none is usable.
pub fn server_lan_ip(hostname_i_output: &str) -> (out: Option<String>)
    ensures
        opt_view(out) == lan_ip_in(hostname_i_output@),
{
    let tokens = words(hostname_i_output);
    let ghost tv = views(tokens@);
    let mut first: Option<String> = None;
    let mut i: usize = 0;
    while i < tokens.len()
        invariant
            i <= tokens@.len(),
            tv == views(tokens@),
            tv == words_of(hostname_i_output@),
            first_usable(tv, 0, true) == first_usable(tv, i as int, true),
            first_usable(tv, 0, false) == (match first {
                Some(f) => Some(f@),
                None => first_usable(tv, i as int, false),
            }),
        decreases tokens@.len() - i,
    {
        let token = tokens[i].as_str();
        assert(tv[i as int] == token@);
        if looks_like_ipv4(token) && !starts_with(token, "127.") && !starts_with(token, "169.254.") {
            if first.is_none() {
                first = Some(token.to_owned());
            }
            if starts_with(token, "192.168.") || starts_with(token, "10.") || is_rfc1918_172(token) {
                return Some(token.to_owned());
            }
        }
        i = i + 1;
    }
    first
}

/// An address is four numbers of at most 255 with dots between them.
pub proof fn addresses_have_four_octets(
    a: Seq<char>,
    b: Seq<char>,
    c: Seq<char>,
    d: Seq<char>,
)
    requires
        !a.contains('.'),
        !b.contains('.'),
        !c.contains('.'),
        !d.contains('.'),
    ensures
        is_ipv4(a + "."@ + b + "."@ + c + "."@ + d) <==> parsed(a, 255) is Some && parsed(b, 255) is Some
            && parsed(c, 255) is Some && parsed(d, 255) is Some,
        !is_ipv4(a + "."@ + b + "."@ + c),
        is_private_172(a + "."@ + b + "."@ + c) <==> a == "172"@ && (parsed(b, 255) matches Some(n)
            && 16 <= n <= 31),
        !is_private_172(a),
{
    lemma_four_pieces(a, b, c, d);
    lemma_three_pieces(a, b, c);
    texts_part_at_the_first_separator(a, '.', a);
    let parts = pieces(a + "."@ + b + "."@ + c + "."@ + d, '.');
    assert(parts[0] == a && parts[1] == b && parts[2] == c && parts[3] == d);
    let short = pieces(a + "."@ + b + "."@ + c, '.');
    assert(short[0] == a && short[1] == b);
}

proof fn lemma_three_pieces(a: Seq<char>, b: Seq<char>, c: Seq<char>)
    requires
        !a.contains('.'),
        !b.contains('.'),
        !c.contains('.'),
    ensures
        pieces(a + "."@ + b + "."@ + c, '.') == seq![a, b, c],
{
    reveal_strlit(".");
    assert("."@ =~= seq!['.']);
    let two = b + seq!['.'] + c;
    assert(a + "."@ + b + "."@ + c =~= a + seq!['.'] + two);
    texts_part_at_the_first_separator(a, '.', two);
    texts_part_at_the_first_separator(b, '.', c);
    texts_part_at_the_first_separator(c, '.', c);
    assert(seq![a] + (seq![b] + seq![c]) =~= seq![a, b, c]);
}

proof fn lemma_four_pieces(a: Seq<char>, b: Seq<char>, c: Seq<char>, d: Seq<char>)
    requires
        !a.contains('.'),
        !b.contains('.'),
        !c.contains('.'),
        !d.contains('.'),
    ensures
        pieces(a + "."@ + b + "."@ + c + "."@ + d, '.') == seq![a, b, c, d],
{
    reveal_strlit(".");
    assert("."@ =~= seq!['.']);
    let three = b + "."@ + c + "."@ + d;
    assert(a + "."@ + b + "."@ + c + "."@ + d =~= a + seq!['.'] + three);
    texts_part_at_the_first_separator(a, '.', three);
    lemma_three_pieces(b, c, d);
    assert(seq![a] + seq![b, c, d] =~= seq![a, b, c, d]);
}

/// The address that is found stands among the words and is neither loopback nor
/// link-local; it is the first private one of that kind, wherever it stands, or where
/// there is none the first one of all. Nothing is found only where there is none.
pub proof fn the_first_private_address_is_taken(output: Seq<char>)
    ensures
        lan_ip_in(output) is None <==> forall|k: int|
            0 <= k < words_of(output).len() ==> !(is_ipv4(#[trigger] words_of(output)[k]) && !starts(
                words_of(output)[k],
                "127."@,
            ) && !starts(words_of(output)[k], "169.254."@)),
        lan_ip_in(output) matches Some(ip) ==> is_ipv4(ip) && !starts(ip, "127."@) && !starts(
            ip,
            "169.254."@,
        ) && words_of(output).contains(ip),
        forall|i: int|
            0 <= i < words_of(output).len() && is_ipv4(#[trigger] words_of(output)[i]) && !starts(
                words_of(output)[i],
                "127."@,
            ) && !starts(words_of(output)[i], "169.254."@) && (starts(
                words_of(output)[i],
                "192.168."@,
            ) || starts(words_of(output)[i], "10."@) || is_private_172(words_of(output)[i]))
                && (forall|k: int|
                0 <= k < i ==> !(is_ipv4(#[trigger] words_of(output)[k]) && (starts(
                    words_of(output)[k],
                    "192.168."@,
                ) || starts(words_of(output)[k], "10."@) || is_private_172(words_of(output)[k]))))
                ==> lan_ip_in(output) == Some(words_of(output)[i]),
        forall|i: int|
            0 <= i < words_of(output).len() && is_ipv4(#[trigger] words_of(output)[i]) && !starts(
                words_of(output)[i],
                "127."@,
            ) && !starts(words_of(output)[i], "169.254."@) && (forall|k: int|
                0 <= k < words_of(output).len() ==> !(is_ipv4(#[trigger] words_of(output)[k]) && (
                starts(words_of(output)[k], "192.168."@) || starts(words_of(output)[k], "10."@)
                    || is_private_172(words_of(output)[k])))) && (forall|k: int|
                0 <= k < i ==> !(is_ipv4(#[trigger] words_of(output)[k]) && !starts(
                    words_of(output)[k],
                    "127."@,
                ) && !starts(words_of(output)[k], "169.254."@))) ==> lan_ip_in(output) == Some(
                words_of(output)[i],
            ),
{
    let ws = words_of(output);
    lemma_first_usable(ws, 0, true);
    lemma_first_usable(ws, 0, false);
}

proof fn lemma_first_usable(tokens: Seq<Seq<char>>, i: int, private: bool)
    requires
        0 <= i <= tokens.len(),
    ensures
        first_usable(tokens, i, private) is None <==> forall|k: int|
            i <= k < tokens.len() ==> !(is_usable(#[trigger] tokens[k]) && (private ==> is_private(
                tokens[k],
            ))),
        first_usable(tokens, i, private) matches Some(ip) ==> exists|n: int|
            i <= n < tokens.len() && #[trigger] tokens[n] == ip && is_usable(ip) && (private
                ==> is_private(ip)) && forall|k: int|
                i <= k < n ==> !(is_usable(#[trigger] tokens[k]) && (private ==> is_private(
                    tokens[k],
                ))),
    decreases tokens.len() - i,
{
    if i < tokens.len() {
        lemma_first_usable(tokens, i + 1, private);
        assert(tokens[i] == tokens[i]);
    }
}

/// The URL of the audio stream that a Chromecast pulls.
pub open spec fn stream_url_text(lan_ip: Seq<char>, port: u16) -> Seq<char> {
    "http://"@ + lan_ip + ":"@ + decimal(port as nat) + "/api/stream/audio.aac"@
}

/// Build the HTTP stream URL that the Chromecast should pull.
pub fn stream_url(lan_ip: &str, port: u16) -> (url: String)
    ensures
        url@ == stream_url_text(lan_ip@, port),
{
    cat5("http://", lan_ip, ":", render(port as u64).as_str(), "/api/stream/audio.aac")
}

// ── Cast session ─────────────────────────────────────────────────────────────

/// How often a heartbeat is sent, in seconds.
pub const HEARTBEAT_SECS: u64 = 5;

/// The receiver itself, as opposed to an application that it runs.
pub const RECEIVER_ID: &'static str = "receiver-0";

/// What the stream is.
pub const STREAM_CONTENT_TYPE: &'static str = "audio/aac";

/// A CASTV2 session, from the first message on.
pub struct CastSession {
    media_url: String,
    /// What was received of a frame that is not complete yet.
    buf: Vec<u8>,
    /// Whether the stream has been loaded.
    loaded: bool,
    /// The id of the next request.
    req_id: u32,
}

/// What a [`CastSession`] holds.
pub struct SessionData {
    pub media_url: Seq<char>,
    pub buf: Seq<u8>,
    pub loaded: bool,
    pub req_id: u32,
}

impl View for CastSession {
    type V = SessionData;

    closed spec fn view(&self) -> SessionData {
        SessionData {
            media_url: self.media_url@,
            buf: self.buf@,
            loaded: self.loaded,
            req_id: self.req_id,
        }
    }
}

/// What each message of a list says.
pub open spec fn messages_view(v: Seq<CastMessage>) -> Seq<MessageData> {
    v.map_values(|m: CastMessage| m@)
}

/// The messages that open a session: a channel to the receiver, and the launch of
/// the media receiver.
pub open spec fn opening_data() -> Seq<MessageData> {
    seq![
        string_message_data(NS_CONNECTION@, RECEIVER_ID@, "{\"type\":\"CONNECT\"}"@),
        string_message_data(
            NS_RECEIVER@,
            RECEIVER_ID@,
            json_written(launch_data(1, DEFAULT_MEDIA_RECEIVER_APP_ID@)),
        ),
    ]
}

/// The answer to a heartbeat.
pub open spec fn pong_data(to: Seq<char>) -> MessageData {
    string_message_data(NS_HEARTBEAT@, to, "{\"type\":\"PONG\"}"@)
}

/// The message that opens a channel to an application.
pub open spec fn connect_data(to: Seq<char>) -> MessageData {
    string_message_data(NS_CONNECTION@, to, "{\"type\":\"CONNECT\"}"@)
}

/// The message that loads the stream.
pub open spec fn load_message_data(to: Seq<char>, req_id: u32, url: Seq<char>) -> MessageData {
    string_message_data(
        NS_MEDIA@,
        to,
        json_written(load_data(req_id, url, STREAM_CONTENT_TYPE@)),
    )
}

impl SessionData {
    /// Until the stream is loaded, the next request is the second one.
    pub open spec fn wf(self) -> bool {
        !self.loaded ==> self.req_id == 2
    }

    /// The answer to a message from `source` of that type, where `transport` is
    /// the media receiver that a RECEIVER_STATUS shows to be launched: a PING is
    /// answered; the first status that shows a transport opens a channel to it and
    /// loads the stream; everything else is passed over.
    pub open spec fn reply(
        self,
        source: Seq<char>,
        kind: Option<Seq<char>>,
        transport: Option<Seq<char>>,
    ) -> Seq<MessageData> {
        if kind == Some("PING"@) {
            seq![pong_data(source)]
        } else if kind == Some("RECEIVER_STATUS"@) && !self.loaded && transport is Some {
            seq![
                connect_data(transport->0),
                load_message_data(transport->0, self.req_id, self.media_url),
            ]
        } else {
            Seq::empty()
        }
    }

    /// The session after that message.
    pub open spec fn after(
        self,
        kind: Option<Seq<char>>,
        transport: Option<Seq<char>>,
    ) -> SessionData {
        if kind != Some("PING"@) && kind == Some("RECEIVER_STATUS"@) && !self.loaded
            && transport is Some {
            SessionData { loaded: true, req_id: 3, ..self }
        } else {
            self
        }
    }
}

/// The JSON payload of a message.
pub open spec fn payload_of(m: MessageData) -> Seq<char> {
    match m.payload_utf8 {
        Some(p) => p,
        None => ""@,
    }
}

/// The media receiver that a message shows to be launched.
pub open spec fn transport_of(m: MessageData) -> Option<Seq<char>> {
    launched_in(payload_of(m), DEFAULT_MEDIA_RECEIVER_APP_ID@)
}

/// The session after all complete frames of `buf` have been handled, the answers,
/// and what is left of the buffer.
pub open spec fn drained(s: SessionData, buf: Seq<u8>) -> (SessionData, Seq<MessageData>, Seq<u8>)
    decreases buf.len(),
{
    match framed(buf) {
        Some((m, n)) => if n == 0 || n > buf.len() {
            (s, Seq::empty(), buf)
        } else {
            let kind = message_kind(payload_of(m));
            let (last, rest_out, rest) = drained(
                s.after(kind, transport_of(m)),
                buf.skip(n as int),
            );
            (last, s.reply(m.source_id, kind, transport_of(m)) + rest_out, rest)
        },
        None => (s, Seq::empty(), buf),
    }
}

/// The session after more bytes were received.
pub open spec fn received_data(s: SessionData, bytes: Seq<u8>) -> SessionData {
    let (last, _, rest) = drained(s, s.buf + bytes);
    SessionData { buf: rest, ..last }
}

/// The answers to what was received.
pub open spec fn answers(s: SessionData, bytes: Seq<u8>) -> Seq<MessageData> {
    drained(s, s.buf + bytes).1
}

impl CastSession {
    /// A session that is to play `media_url`.
    pub fn new(media_url: String) -> (s: Self)
        ensures
            s@ == (SessionData {
                media_url: media_url@,
                buf: Seq::empty(),
                loaded: false,
                req_id: 2,
            }),
            s@.wf(),
    {
        let s = CastSession { media_url, buf: Vec::new(), loaded: false, req_id: 2 };
        assert(s@.buf =~= Seq::empty());
        s
    }

    /// The messages that open the session.
    pub fn opening(&self) -> (out: Vec<CastMessage>)
        ensures
            messages_view(out@) == opening_data(),
    {
        let mut out: Vec<CastMessage> = Vec::new();
        out.push(string_message(NS_CONNECTION, RECEIVER_ID, connect().as_str()));
        out.push(
            string_message(
                NS_RECEIVER,
                RECEIVER_ID,
                launch(1, DEFAULT_MEDIA_RECEIVER_APP_ID).as_str(),
            ),
        );
        assert(messages_view(out@) =~= opening_data());
        out
    }

    /// The heartbeat.
    pub fn heartbeat(&self) -> (m: CastMessage)
        ensures
            m@ == string_message_data(NS_HEARTBEAT@, RECEIVER_ID@, "{\"type\":\"PING\"}"@),
    {
        string_message(NS_HEARTBEAT, RECEIVER_ID, ping().as_str())
    }

    /// The message that ends the session.
    pub fn closing(&self) -> (m: CastMessage)
        ensures
            m@ == string_message_data(NS_CONNECTION@, RECEIVER_ID@, "{\"type\":\"CLOSE\"}"@),
    {
        string_message(NS_CONNECTION, RECEIVER_ID, close().as_str())
    }

    /// Answer a message from `source` of type `kind`; `transport` is the media
    /// receiver that it shows to be launched, if it does.
    pub fn react(&mut self, source: &str, kind: &Option<String>, transport: Option<String>) -> (out:
        Vec<CastMessage>)
        requires
            old(self)@.wf(),
        ensures
            final(self)@ == old(self)@.after(opt_view(*kind), opt_view(transport)),
            messages_view(out@) == old(self)@.reply(source@, opt_view(*kind), opt_view(transport)),
            final(self)@.wf(),
            final(self)@.media_url == old(self)@.media_url,
            forall|k: int|
                0 <= k < out@.len() && (#[trigger] out@[k]).namespace@
                    == "urn:x-cast:com.google.cast.media"@ ==> (out@[k].payload_utf8 matches Some(p) && json_parsed(p@) matches Some(
                    JsonData::Object(m),
                ) && m.contains_key("type"@) && m["type"@] == JsonData::Text("LOAD"@)
                    && m.contains_key("media"@) && (m["media"@] matches JsonData::Object(media)
                    && media.contains_key("contentId"@) && media["contentId"@] == JsonData::Text(
                    old(self)@.media_url,
                ) && media.contains_key("contentType"@) && media["contentType"@] == JsonData::Text(
                    "audio/aac"@,
                ))),
            opt_view(*kind) == Some("RECEIVER_STATUS"@) && !old(self)@.loaded && transport is Some
                ==> out@.len() == 2 && out@[1].namespace@ == "urn:x-cast:com.google.cast.media"@
                && out@[1].destination_id@ == transport->0@,
    {
        proof {
            reveal_namespaces();
            reveal_kinds();
            a_load_names_its_stream(self@.req_id, self@.media_url, STREAM_CONTENT_TYPE@);
        }
        let mut out: Vec<CastMessage> = Vec::new();
        if is_some_text(kind, "PING") {
            out.push(string_message(NS_HEARTBEAT, source, pong().as_str()));
        } else if is_some_text(kind, "RECEIVER_STATUS") && !self.loaded {
            if let Some(tid) = transport {
                out.push(string_message(NS_CONNECTION, tid.as_str(), connect().as_str()));
                out.push(
                    string_message(
                        NS_MEDIA,
                        tid.as_str(),
                        load(self.req_id, self.media_url.as_str(), STREAM_CONTENT_TYPE).as_str(),
                    ),
                );
                self.req_id = self.req_id + 1;
                self.loaded = true;
            }
        }
        assert(messages_view(out@) =~= old(self)@.reply(
            source@,
            opt_view(*kind),
            opt_view(transport),
        ));
        out
    }

    /// Handle received bytes: every complete frame is taken off the buffer and
    /// answered; the rest waits for more.
    pub fn received(&mut self, bytes: &[u8]) -> (out: Vec<CastMessage>)
        requires
            old(self)@.wf(),
        ensures
            final(self)@ == received_data(old(self)@, bytes@),
            messages_view(out@) == answers(old(self)@, bytes@),
            final(self)@.wf(),
            final(self)@.media_url == old(self)@.media_url,
            forall|k: int|
                0 <= k < out@.len() && (#[trigger] out@[k]).namespace@
                    == "urn:x-cast:com.google.cast.media"@ ==> (out@[k].payload_utf8 matches Some(p) && json_parsed(p@) matches Some(
                    JsonData::Object(m),
                ) && m.contains_key("type"@) && m["type"@] == JsonData::Text("LOAD"@)
                    && m.contains_key("media"@) && (m["media"@] matches JsonData::Object(media)
                    && media.contains_key("contentId"@) && media["contentId"@] == JsonData::Text(
                    old(self)@.media_url,
                ) && media.contains_key("contentType"@) && media["contentType"@] == JsonData::Text(
                    "audio/aac"@,
                ))),
    {
        let mut out: Vec<CastMessage> = Vec::new();
        let ghost s0 = self@;
        let mut i: usize = 0;
        while i < bytes.len()
            invariant
                i <= bytes@.len(),
                self@ == (SessionData { buf: s0.buf + bytes@.take(i as int), ..s0 }),
            decreases bytes@.len() - i,
        {
            self.buf.push(bytes[i]);
            i = i + 1;
            assert(self@.buf =~= s0.buf + bytes@.take(i as int));
        }
        assert(bytes@.take(bytes@.len() as int) == bytes@);
        let ghost all = s0.buf + bytes@;
        let mut at: usize = 0;
        assert(all.skip(0) =~= all);
        assert(messages_view(out@) =~= Seq::empty());
        loop
            invariant
                at <= self@.buf.len(),
                self@.buf == all,
                s0 == old(self)@,
                all == s0.buf + bytes@,
                self@.wf(),
                self@.media_url == s0.media_url,
                forall|k: int|
                    0 <= k < out@.len() && (#[trigger] out@[k]).namespace@
                        == "urn:x-cast:com.google.cast.media"@ ==> (out@[k].payload_utf8 matches Some(p) && json_parsed(p@) matches Some(
                        JsonData::Object(m),
                    ) && m.contains_key("type"@) && m["type"@] == JsonData::Text("LOAD"@)
                        && m.contains_key("media"@) && (m["media"@] matches JsonData::Object(media)
                        && media.contains_key("contentId"@) && media["contentId"@] == JsonData::Text(
                        s0.media_url,
                    ) && media.contains_key("contentType"@) && media["contentType"@] == JsonData::Text(
                        "audio/aac"@,
                    ))),
                ({
                    let d = drained(
                        SessionData { buf: s0.buf, ..self@ },
                        all.skip(at as int),
                    );
                    &&& drained(s0, all).0 == d.0
                    &&& drained(s0, all).1 == messages_view(out@) + d.1
                    &&& drained(s0, all).2 == d.2
                }),
            decreases all.len() - at,
        {
            let ghost now = SessionData { buf: s0.buf, ..self@ };
            let ghost rest = all.skip(at as int);
            let view: &[u8] = slice_subrange(self.buf.as_slice(), at, self.buf.len());
            assert(view@ =~= rest);
            let found = decode_frame(view);
            match found {
                None => {
                    let left = vstd::slice::slice_to_vec(view);
                    self.buf = left;
                    assert(messages_view(out@) + Seq::<MessageData>::empty() =~= messages_view(out@));
                    return out;
                },
                Some((msg, consumed)) => {
                    let empty = String::new();
                    let payload = match &msg.payload_utf8 {
                        Some(p) => p.as_str(),
                        None => empty.as_str(),
                    };
                    proof {
                        reveal_strlit("");
                        assert(""@ =~= Seq::<char>::empty());
                        assert(payload@ == payload_of(msg@));
                    }
                    let kind = message_type(payload);
                    let transport = parse_launched_transport_id(
                        payload,
                        DEFAULT_MEDIA_RECEIVER_APP_ID,
                    );
                    let ghost t = opt_view(transport);
                    let ghost before = messages_view(out@);
                    let mut replies = self.react(msg.source_id.as_str(), &kind, transport);
                    let ghost rv = messages_view(replies@);
                    out.append(&mut replies);
                    at = at + consumed;
                    proof {
                        assert(messages_view(out@) =~= before + rv);
                        assert(rest.skip(consumed as int) =~= all.skip(at as int));
                        let d = drained(now.after(opt_view(kind), t), all.skip(at as int));
                        assert(before + (rv + d.1) =~= messages_view(out@) + d.1);
                        assert((SessionData { buf: s0.buf, ..self@ }) == now.after(
                            opt_view(kind),
                            t,
                        ));
                    }
                },
            }
        }
    }
}

// ── Laws of the session ──────────────────────────────────────────────────────

/// Whether a message loads a stream.
pub open spec fn is_load(m: MessageData) -> bool {
    m.namespace == NS_MEDIA@
}

proof fn lemma_only_load(s: SessionData, buf: Seq<u8>)
    requires
        s.loaded,
    ensures
        drained(s, buf).0 == s,
        forall|i: int| 0 <= i < drained(s, buf).1.len() ==> !is_load(#[trigger] drained(s, buf).1[i]),
    decreases buf.len(),
{
    reveal_namespaces();
    match framed(buf) {
        Some((m, n)) => if n == 0 || n > buf.len() {
        } else {
            let kind = message_kind(payload_of(m));
            assert(s.after(kind, transport_of(m)) == s);
            lemma_only_load(s, buf.skip(n as int));
            let head = s.reply(m.source_id, kind, transport_of(m));
            let tail = drained(s, buf.skip(n as int)).1;
            let out = drained(s, buf).1;
            assert(out == head + tail);
            assert forall|i: int| 0 <= i < out.len() implies !is_load(#[trigger] out[i]) by {
                if i >= head.len() {
                    assert(out[i] == tail[i - head.len()]);
                }
            }
        },
        None => {},
    }
}

proof fn reveal_kinds()
    ensures
        "PING"@ != "RECEIVER_STATUS"@,
{
    reveal_strlit("PING");
    reveal_strlit("RECEIVER_STATUS");
    assert("PING"@.len() == 4);
    assert("RECEIVER_STATUS"@.len() == 15);
}

proof fn reveal_namespaces()
    ensures
        NS_MEDIA@ != NS_HEARTBEAT@,
        NS_MEDIA@ != NS_CONNECTION@,
{
    reveal_strlit("urn:x-cast:com.google.cast.media");
    reveal_strlit("urn:x-cast:com.google.cast.tp.heartbeat");
    reveal_strlit("urn:x-cast:com.google.cast.tp.connection");
    assert(NS_MEDIA@.len() == 32);
    assert(NS_HEARTBEAT@.len() == 39);
    assert(NS_CONNECTION@.len() == 40);
}

/// Once the stream has been loaded it is never loaded again.
pub proof fn streams_are_loaded_once(s: SessionData, bytes: Seq<u8>)
    requires
        s.loaded,
    ensures
        received_data(s, bytes).loaded,
        forall|i: int|
            0 <= i < answers(s, bytes).len() ==> !is_load(#[trigger] answers(s, bytes)[i]),
{
    lemma_only_load(s, s.buf + bytes);
}

/// How often a list of messages loads a stream.
pub open spec fn loads(out: Seq<MessageData>) -> nat
    decreases out.len(),
{
    if out.len() == 0 {
        0
    } else {
        loads(out.drop_last()) + (if is_load(out.last()) {
            1nat
        } else {
            0
        })
    }
}

proof fn lemma_no_loads(out: Seq<MessageData>)
    requires
        forall|i: int| 0 <= i < out.len() ==> !is_load(#[trigger] out[i]),
    ensures
        loads(out) == 0,
    decreases out.len(),
{
    if out.len() > 0 {
        assert forall|i: int| 0 <= i < out.drop_last().len() implies !is_load(
            #[trigger] out.drop_last()[i],
        ) by {
            assert(out.drop_last()[i] == out[i]);
        }
        lemma_no_loads(out.drop_last());
        assert(!is_load(out[out.len() - 1]));
    }
}

proof fn lemma_loads_add(a: Seq<MessageData>, b: Seq<MessageData>)
    ensures
        loads(a + b) == loads(a) + loads(b),
    decreases b.len(),
{
    if b.len() == 0 {
        assert(a + b =~= a);
    } else {
        lemma_loads_add(a, b.drop_last());
        assert((a + b).drop_last() =~= a + b.drop_last());
        assert((a + b).last() == b.last());
    }
}

/// Whatever is received at once, the stream is loaded at most once, and the
/// session knows whether it was.
pub proof fn one_load_at_most(s: SessionData, buf: Seq<u8>)
    requires
        !s.loaded,
    ensures
        loads(drained(s, buf).1) == (if drained(s, buf).0.loaded {
            1nat
        } else {
            0
        }),
    decreases buf.len(),
{
    reveal_namespaces();
    match framed(buf) {
        Some((m, n)) => if n == 0 || n > buf.len() {
        } else {
            let kind = message_kind(payload_of(m));
            let next = s.after(kind, transport_of(m));
            let head = s.reply(m.source_id, kind, transport_of(m));
            let tail = drained(next, buf.skip(n as int)).1;
            lemma_loads_add(head, tail);
            reveal_with_fuel(loads, 3);
            if next.loaded {
                lemma_only_load(next, buf.skip(n as int));
                lemma_no_loads(tail);
                assert(head.drop_last().drop_last() =~= Seq::empty());
                assert(loads(head) == 1);
            } else {
                one_load_at_most(next, buf.skip(n as int));
                lemma_no_loads(head);
            }
        },
        None => {},
    }
}

proof fn lemma_framed_prefix(a: Seq<u8>, b: Seq<u8>)
    requires
        framed(a) is Some,
    ensures
        framed(a + b) == framed(a),
{
    let n = crate::cast::proto::stated_length(a);
    assert(forall|i: int| 0 <= i < a.len() ==> (a + b)[i] == a[i]);
    assert(crate::cast::proto::stated_length(a + b) == n);
    assert((a + b).subrange(4, 4 + n as int) =~= a.subrange(4, 4 + n as int));
}

proof fn lemma_drained_parts(s: SessionData, a: Seq<u8>, b: Seq<u8>)
    ensures
        ({
            let (s1, o1, r1) = drained(s, a);
            let (s2, o2, r2) = drained(s1, r1 + b);
            drained(s, a + b) == (s2, o1 + o2, r2)
        }),
    decreases a.len(),
{
    match framed(a) {
        Some((m, n)) => if n == 0 || n > a.len() {
            let d = drained(s, a + b);
            assert(Seq::<MessageData>::empty() + d.1 =~= d.1);
        } else {
            lemma_framed_prefix(a, b);
            let kind = message_kind(payload_of(m));
            let next = s.after(kind, transport_of(m));
            let head = s.reply(m.source_id, kind, transport_of(m));
            assert((a + b).skip(n as int) =~= a.skip(n as int) + b);
            lemma_drained_parts(next, a.skip(n as int), b);
            let (s1, o1, r1) = drained(next, a.skip(n as int));
            let (s2, o2, r2) = drained(s1, r1 + b);
            assert(head + (o1 + o2) =~= (head + o1) + o2);
        },
        None => {
            let d = drained(s, a + b);
            assert(Seq::<MessageData>::empty() + d.1 =~= d.1);
        },
    }
}

proof fn lemma_buf_is_idle(s: SessionData, t: SessionData, buf: Seq<u8>)
    requires
        s.media_url == t.media_url,
        s.loaded == t.loaded,
        s.req_id == t.req_id,
    ensures
        drained(s, buf).1 == drained(t, buf).1,
        drained(s, buf).2 == drained(t, buf).2,
        drained(s, buf).0 == (SessionData { buf: s.buf, ..drained(t, buf).0 }),
    decreases buf.len(),
{
    match framed(buf) {
        Some((m, n)) => if n == 0 || n > buf.len() {
        } else {
            let kind = message_kind(payload_of(m));
            lemma_buf_is_idle(
                s.after(kind, transport_of(m)),
                t.after(kind, transport_of(m)),
                buf.skip(n as int),
            );
        },
        None => {},
    }
}

/// It does not matter in which pieces the bytes arrive: receiving `a` and then `b`
/// gives the same answers and the same session as receiving both at once.
pub proof fn arrival_in_pieces_makes_no_difference(s: SessionData, a: Seq<u8>, b: Seq<u8>)
    ensures
        received_data(received_data(s, a), b) == received_data(s, a + b),
        answers(s, a) + answers(received_data(s, a), b) == answers(s, a + b),
{
    let mid = received_data(s, a);
    let (s1, o1, r1) = drained(s, s.buf + a);
    lemma_drained_parts(s, s.buf + a, b);
    assert(s.buf + (a + b) =~= s.buf + a + b);
    lemma_buf_is_idle(mid, s1, r1 + b);
}

/// Every PING is answered with a PONG to its sender, whatever the session has done
/// before.
pub proof fn pings_are_answered(s: SessionData, source: Seq<char>, transport: Option<Seq<char>>)
    ensures
        s.reply(source, Some("PING"@), transport) == seq![pong_data(source)],
        s.after(Some("PING"@), transport) == s,
{
}

/// The first status that shows a transport opens a channel to it and tells it to play
/// the stream that the session was made for; the channel is opened first.
pub proof fn a_launched_receiver_is_told_to_play(
    s: SessionData,
    source: Seq<char>,
    transport: Seq<char>,
)
    requires
        !s.loaded,
    ensures
        ({
            let out = s.reply(source, Some("RECEIVER_STATUS"@), Some(transport));
            &&& out.len() == 2
            &&& out[0].namespace == "urn:x-cast:com.google.cast.tp.connection"@
            &&& out[0].destination_id == transport
            &&& out[0].payload_utf8 == Some("{\"type\":\"CONNECT\"}"@)
            &&& out[1].namespace == "urn:x-cast:com.google.cast.media"@
            &&& out[1].destination_id == transport
            &&& (exists|m: Map<Seq<char>, JsonData>|
                out[1].payload_utf8 == Some(#[trigger] json_written(JsonData::Object(m))) && m.contains_key(
                    "type"@,
                ) && m["type"@] == JsonData::Text("LOAD"@) && m.contains_key("media"@) && (
                m["media"@] matches JsonData::Object(media) && media.contains_key("contentId"@)
                    && media["contentId"@] == JsonData::Text(s.media_url) && media.contains_key(
                    "contentType"@,
                ) && media["contentType"@] == JsonData::Text("audio/aac"@)
                    && media.contains_key("streamType"@) && media["streamType"@] == JsonData::Text(
                    "LIVE"@,
                )) && m.contains_key("autoplay"@) && m["autoplay"@] == JsonData::Bool(true))
        }),
        s.after(Some("RECEIVER_STATUS"@), Some(transport)).loaded,
{
    reveal_kinds();
    a_load_names_its_stream(s.req_id, s.media_url, STREAM_CONTENT_TYPE@);
    let d = load_data(s.req_id, s.media_url, STREAM_CONTENT_TYPE@);
    let m = d->Object_0;
    assert(d == JsonData::Object(m));
    let out = s.reply(source, Some("RECEIVER_STATUS"@), Some(transport));
    assert(out[1].payload_utf8 == Some(json_written(JsonData::Object(m))));
}

/// Whatever is received, a message on the media channel loads the stream that the session
/// was made for, and that stays the same.
pub proof fn only_the_own_stream_is_loaded(s: SessionData, bytes: Seq<u8>)
    ensures
        received_data(s, bytes).media_url == s.media_url,
        forall|k: int|
            0 <= k < answers(s, bytes).len() && (#[trigger] answers(s, bytes)[k]).namespace
                == "urn:x-cast:com.google.cast.media"@ ==> (exists|m: Map<Seq<char>, JsonData>|
                answers(s, bytes)[k].payload_utf8 == Some(#[trigger] json_written(JsonData::Object(m))) && m.contains_key(
                    "type"@,
                ) && m["type"@] == JsonData::Text("LOAD"@) && m.contains_key("media"@) && (
                m["media"@] matches JsonData::Object(media) && media.contains_key("contentId"@)
                    && media["contentId"@] == JsonData::Text(s.media_url) && media.contains_key(
                    "contentType"@,
                ) && media["contentType"@] == JsonData::Text("audio/aac"@)
                    && media.contains_key("streamType"@) && media["streamType"@] == JsonData::Text(
                    "LIVE"@,
                )) && m.contains_key("autoplay"@) && m["autoplay"@] == JsonData::Bool(true)),
{
    lemma_own_stream(s, s.buf + bytes);
}

proof fn lemma_own_stream(s: SessionData, buf: Seq<u8>)
    ensures
        drained(s, buf).0.media_url == s.media_url,
        forall|k: int|
            0 <= k < drained(s, buf).1.len() && (#[trigger] drained(s, buf).1[k]).namespace
                == "urn:x-cast:com.google.cast.media"@ ==> (exists|m: Map<Seq<char>, JsonData>|
                drained(s, buf).1[k].payload_utf8 == Some(#[trigger] json_written(JsonData::Object(m))) && m.contains_key(
                    "type"@,
                ) && m["type"@] == JsonData::Text("LOAD"@) && m.contains_key("media"@) && (
                m["media"@] matches JsonData::Object(media) && media.contains_key("contentId"@)
                    && media["contentId"@] == JsonData::Text(s.media_url) && media.contains_key(
                    "contentType"@,
                ) && media["contentType"@] == JsonData::Text("audio/aac"@)
                    && media.contains_key("streamType"@) && media["streamType"@] == JsonData::Text(
                    "LIVE"@,
                )) && m.contains_key("autoplay"@) && m["autoplay"@] == JsonData::Bool(true)),
    decreases buf.len(),
{
    reveal_namespaces();
    reveal_kinds();
    match framed(buf) {
        Some((m, n)) => if n == 0 || n > buf.len() {
        } else {
            let kind = message_kind(payload_of(m));
            let next = s.after(kind, transport_of(m));
            lemma_own_stream(next, buf.skip(n as int));
            let head = s.reply(m.source_id, kind, transport_of(m));
            let tail = drained(next, buf.skip(n as int)).1;
            let out = drained(s, buf).1;
            assert(out == head + tail);
            assert forall|k: int|
                0 <= k < out.len() && (#[trigger] out[k]).namespace
                    == "urn:x-cast:com.google.cast.media"@ implies (exists|m: Map<Seq<char>, JsonData>|
                out[k].payload_utf8 == Some(#[trigger] json_written(JsonData::Object(m))) && m.contains_key(
                    "type"@,
                ) && m["type"@] == JsonData::Text("LOAD"@) && m.contains_key("media"@) && (
                m["media"@] matches JsonData::Object(media) && media.contains_key("contentId"@)
                    && media["contentId"@] == JsonData::Text(s.media_url) && media.contains_key(
                    "contentType"@,
                ) && media["contentType"@] == JsonData::Text("audio/aac"@)
                    && media.contains_key("streamType"@) && media["streamType"@] == JsonData::Text(
                    "LIVE"@,
                )) && m.contains_key("autoplay"@) && m["autoplay"@] == JsonData::Bool(true)) by {
                if k >= head.len() {
                    assert(out[k] == tail[k - head.len()]);
                } else {
                    assert(out[k] == head[k]);
                    a_launched_receiver_is_told_to_play(s, m.source_id, transport_of(m)->0);
                }
            }
        },
        None => {},
    }
}

/// A heartbeat is answered to its sender, on its own channel, and changes nothing else.
pub proof fn heartbeats_are_answered(
    s: SessionData,
    source: Seq<char>,
    transport: Option<Seq<char>>,
)
    ensures
        ({
            let out = s.reply(source, Some("PING"@), transport);
            &&& out.len() == 1
            &&& out[0].namespace == "urn:x-cast:com.google.cast.tp.heartbeat"@
            &&& out[0].destination_id == source
            &&& out[0].payload_utf8 == Some("{\"type\":\"PONG\"}"@)
            &&& out[0].protocol_version == Some(0i32)
            &&& out[0].payload_type == Some(0i32)
            &&& out[0].payload_binary is None
        }),
        s.after(Some("PING"@), transport) == s,
{
}

/// Messages of other types, a status that shows no transport, and every status after the
/// stream was loaded are passed over.
pub proof fn other_messages_are_passed_over(
    s: SessionData,
    source: Seq<char>,
    kind: Option<Seq<char>>,
    transport: Option<Seq<char>>,
)
    requires
        kind != Some("PING"@),
        kind != Some("RECEIVER_STATUS"@) || s.loaded || transport is None,
    ensures
        s.reply(source, kind, transport).len() == 0,
        s.after(kind, transport) == s,
{
}

/// A session opens with a channel to the receiver and then the launch of the default
/// media receiver.
pub proof fn sessions_open_with_a_launch()
    ensures
        opening_data().len() == 2,
        opening_data()[0].namespace == "urn:x-cast:com.google.cast.tp.connection"@,
        opening_data()[0].destination_id == "receiver-0"@,
        opening_data()[0].payload_utf8 == Some("{\"type\":\"CONNECT\"}"@),
        opening_data()[1].namespace == "urn:x-cast:com.google.cast.receiver"@,
        opening_data()[1].destination_id == "receiver-0"@,
        exists|m: Map<Seq<char>, JsonData>|
            opening_data()[1].payload_utf8 == Some(#[trigger] json_written(JsonData::Object(m)))
                && m.contains_key("type"@) && m["type"@] == JsonData::Text("LAUNCH"@)
                && m.contains_key("appId"@) && m["appId"@] == JsonData::Text("CC1AD845"@)
                && m.contains_key("requestId"@) && m["requestId"@] == JsonData::Number(
                NumberData::Unsigned(1),
            ),
{
    requests_say_what_they_ask_for(1, DEFAULT_MEDIA_RECEIVER_APP_ID@, 0);
    let d = launch_data(1, DEFAULT_MEDIA_RECEIVER_APP_ID@);
    let m = d->Object_0;
    assert(d == JsonData::Object(m));
    assert(opening_data()[1].payload_utf8 == Some(json_written(JsonData::Object(m))));
}

/// Frames are taken off the buffer and answered one after the other: what is received is
/// first answered with what its first frame asks for, and the rest as if it had come by
/// itself; without a complete frame nothing is answered and everything is kept.
pub proof fn frames_are_answered_in_turn(s: SessionData, bytes: Seq<u8>)
    ensures
        framed(s.buf + bytes) is None ==> answers(s, bytes).len() == 0 && received_data(s, bytes)
            == (SessionData { buf: s.buf + bytes, ..s }),
        framed(s.buf + bytes) matches Some((m, n)) ==> 0 < n <= (s.buf + bytes).len() ==> {
            let next = SessionData {
                buf: Seq::empty(),
                ..s.after(message_kind(payload_of(m)), transport_of(m))
            };
            &&& answers(s, bytes) == s.reply(
                m.source_id,
                message_kind(payload_of(m)),
                transport_of(m),
            ) + answers(next, (s.buf + bytes).skip(n as int))
            &&& received_data(s, bytes) == received_data(next, (s.buf + bytes).skip(n as int))
        },
{
    let buf = s.buf + bytes;
    if let Some((m, n)) = framed(buf) {
        if 0 < n <= buf.len() {
            let after = s.after(message_kind(payload_of(m)), transport_of(m));
            let next = SessionData { buf: Seq::empty(), ..after };
            let rest = buf.skip(n as int);
            assert(next.buf + rest =~= rest);
            lemma_buf_is_idle(after, next, rest);
        }
    }
}

/// What a message shows is read from its text payload: its type, and the transport of the
/// default media receiver. A message without one shows nothing of the sort.
pub proof fn messages_are_read_by_their_text(m: MessageData)
    ensures
        m.payload_utf8 matches Some(p) ==> payload_of(m) == p,
        m.payload_utf8 is None ==> payload_of(m) == ""@,
        json_parsed(payload_of(m)) is None ==> transport_of(m) is None,
        json_parsed(payload_of(m)) matches Some(d) ==> transport_of(m) == launched(d, "CC1AD845"@),
{
}

/// The stream is pulled over HTTP from our own address and port.
pub proof fn streams_are_pulled_from_us(lan_ip: Seq<char>, port: u16)
    ensures
        stream_url_text(lan_ip, port) == "http://"@ + lan_ip + ":"@ + decimal(port as nat)
            + "/api/stream/audio.aac"@,
{
}

} // verus!
