//! CASTV2 JSON payloads: builders, and what is read from incoming ones.
use vstd::prelude::*;
use crate::json::{items_of, json_parsed, json_written, member, from_text, text_of, to_text, readable, all_readable, object, object_data, put, Json, JsonData, NumberData, MAX_DEPTH};
use crate::text::{opt_str_view, opt_view, same};

verus! {

/// Default Media Receiver application id (the built-in Chromecast app).
pub const DEFAULT_MEDIA_RECEIVER_APP_ID: &'static str = "CC1AD845";

/// Transport-layer connection namespace.
pub const NS_CONNECTION: &'static str = "urn:x-cast:com.google.cast.tp.connection";

/// Heartbeat (PING/PONG) namespace.
pub const NS_HEARTBEAT: &'static str = "urn:x-cast:com.google.cast.tp.heartbeat";

/// Receiver control namespace (LAUNCH, GET_STATUS, RECEIVER_STATUS …).
pub const NS_RECEIVER: &'static str = "urn:x-cast:com.google.cast.receiver";

/// Media control namespace (LOAD, MEDIA_STATUS, STOP …).
pub const NS_MEDIA: &'static str = "urn:x-cast:com.google.cast.media";

// ── Builders ─────────────────────────────────────────────────────────────────

/// `{"type":"CONNECT"}`, sent on [`NS_CONNECTION`] to open a virtual channel.
pub fn connect() -> (out: String)
    ensures
        out@ == "{\"type\":\"CONNECT\"}"@,
{
    "{\"type\":\"CONNECT\"}".to_owned()
}

/// `{"type":"CLOSE"}`, which closes a virtual channel.
pub fn close() -> (out: String)
    ensures
        out@ == "{\"type\":\"CLOSE\"}"@,
{
    "{\"type\":\"CLOSE\"}".to_owned()
}

/// `{"type":"PING"}`, the heartbeat request on [`NS_HEARTBEAT`].
pub fn ping() -> (out: String)
    ensures
        out@ == "{\"type\":\"PING\"}"@,
{
    "{\"type\":\"PING\"}".to_owned()
}

/// `{"type":"PONG"}`, the heartbeat reply on [`NS_HEARTBEAT`].
pub fn pong() -> (out: String)
    ensures
        out@ == "{\"type\":\"PONG\"}"@,
{
    "{\"type\":\"PONG\"}".to_owned()
}

/// A text value.
pub open spec fn text_data(s: Seq<char>) -> JsonData {
    JsonData::Text(s)
}

/// A number value.
pub open spec fn number_data(n: u32) -> JsonData {
    JsonData::Number(NumberData::Unsigned(n as u64))
}

/// What a LAUNCH says.
pub open spec fn launch_data(req_id: u32, app_id: Seq<char>) -> JsonData {
    JsonData::Object(
        Map::empty().insert("type"@, text_data("LAUNCH"@)).insert("appId"@, text_data(app_id)).insert(
            "requestId"@,
            number_data(req_id),
        ),
    )
}

/// What a GET_STATUS says.
pub open spec fn get_status_data(req_id: u32) -> JsonData {
    JsonData::Object(
        Map::empty().insert("type"@, text_data("GET_STATUS"@)).insert(
            "requestId"@,
            number_data(req_id),
        ),
    )
}

/// What a LOAD says.
pub open spec fn load_data(req_id: u32, url: Seq<char>, content_type: Seq<char>) -> JsonData {
    JsonData::Object(
        Map::empty().insert("type"@, text_data("LOAD"@)).insert(
            "requestId"@,
            number_data(req_id),
        ).insert(
            "media"@,
            JsonData::Object(
                Map::empty().insert("contentId"@, text_data(url)).insert(
                    "contentType"@,
                    text_data(content_type),
                ).insert("streamType"@, text_data("LIVE"@)),
            ),
        ).insert("autoplay"@, JsonData::Bool(true)),
    )
}

/// What the STOP of a media session says.
pub open spec fn media_stop_data(req_id: u32, media_session_id: u32) -> JsonData {
    JsonData::Object(
        Map::empty().insert("type"@, text_data("STOP"@)).insert(
            "requestId"@,
            number_data(req_id),
        ).insert("mediaSessionId"@, number_data(media_session_id)),
    )
}

/// What the STOP of a receiver application says.
pub open spec fn receiver_stop_data(req_id: u32) -> JsonData {
    JsonData::Object(
        Map::empty().insert("type"@, text_data("STOP"@)).insert(
            "requestId"@,
            number_data(req_id),
        ),
    )
}

proof fn reveal_keys()
    ensures
        "type"@ != "appId"@,
        "type"@ != "requestId"@,
        "appId"@ != "requestId"@,
        "type"@ != "media"@,
        "type"@ != "autoplay"@,
        "requestId"@ != "media"@,
        "requestId"@ != "autoplay"@,
        "media"@ != "autoplay"@,
        "type"@ != "mediaSessionId"@,
        "requestId"@ != "mediaSessionId"@,
        "contentId"@ != "contentType"@,
        "contentId"@ != "streamType"@,
        "contentType"@ != "streamType"@,
{
    reveal_strlit("type");
    reveal_strlit("appId");
    reveal_strlit("requestId");
    reveal_strlit("media");
    reveal_strlit("autoplay");
    reveal_strlit("mediaSessionId");
    reveal_strlit("contentId");
    reveal_strlit("contentType");
    reveal_strlit("streamType");
    assert("type"@.len() == 4);
    assert("appId"@.len() == 5);
    assert("media"@.len() == 5);
    assert("requestId"@.len() == 9);
    assert("contentId"@.len() == 9);
    assert("autoplay"@.len() == 8);
    assert("mediaSessionId"@.len() == 14);
    assert("contentType"@.len() == 11);
    assert("streamType"@.len() == 10);
}

/// A text value.
fn text(s: &str) -> (j: Json)
    ensures
        j@ == text_data(s@),
        forall|depth: nat| #[trigger] readable(j@, depth),
{
    Json::Text(s.to_owned())
}

/// A number value.
fn number(n: u32) -> (j: Json)
    ensures
        j@ == number_data(n),
        forall|depth: nat| #[trigger] readable(j@, depth),
{
    Json::unsigned(n as u64)
}

/// The members of a message of that type.
fn message(kind: &str) -> (members: Vec<(String, Json)>)
    ensures
        object_data(members@) == Map::<Seq<char>, JsonData>::empty().insert(
            "type"@,
            text_data(kind@),
        ),
        all_readable(object_data(members@), (MAX_DEPTH - 1) as nat),
{
    let mut members: Vec<(String, Json)> = Vec::new();
    assert(object_data(members@) == Map::<Seq<char>, JsonData>::empty());
    assert(all_readable(object_data(members@), (MAX_DEPTH - 1) as nat));
    put(&mut members, "type", text(kind));
    members
}

/// A message of the given members as text.
fn written(members: Vec<(String, Json)>) -> (out: String)
    requires
        all_readable(object_data(members@), (MAX_DEPTH - 1) as nat),
    ensures
        out@ == json_written(JsonData::Object(object_data(members@))),
        json_parsed(out@) == Some(JsonData::Object(object_data(members@))),
{
    to_text(&object(members))
}

/// Launch the app identified by `app_id`:
/// `{"type":"LAUNCH","appId":<app_id>,"requestId":<req_id>}`.
pub fn launch(req_id: u32, app_id: &str) -> (out: String)
    ensures
        out@ == json_written(launch_data(req_id, app_id@)),
        json_parsed(out@) == Some(launch_data(req_id, app_id@)),
        message_kind(out@) == Some("LAUNCH"@),
{
    let mut members = message("LAUNCH");
    put(&mut members, "appId", text(app_id));
    put(&mut members, "requestId", number(req_id));
    proof {
        reveal_keys();
    }
    written(members)
}

/// Request the current receiver status (yields a RECEIVER_STATUS reply):
/// `{"type":"GET_STATUS","requestId":<req_id>}`.
pub fn get_status(req_id: u32) -> (out: String)
    ensures
        out@ == json_written(get_status_data(req_id)),
        json_parsed(out@) == Some(get_status_data(req_id)),
        message_kind(out@) == Some("GET_STATUS"@),
{
    let mut members = message("GET_STATUS");
    put(&mut members, "requestId", number(req_id));
    proof {
        reveal_keys();
    }
    written(members)
}

/// Load a live stream into the Default Media Receiver, and play it:
/// `{"type":"LOAD","requestId":<req_id>,"media":{"contentId":<url>,
/// "contentType":<content_type>,"streamType":"LIVE"},"autoplay":true}`.
pub fn load(req_id: u32, url: &str, content_type: &str) -> (out: String)
    ensures
        out@ == json_written(load_data(req_id, url@, content_type@)),
        json_parsed(out@) == Some(load_data(req_id, url@, content_type@)),
        message_kind(out@) == Some("LOAD"@),
{
    let mut media: Vec<(String, Json)> = Vec::new();
    assert(object_data(media@) == Map::<Seq<char>, JsonData>::empty());
    assert(all_readable(object_data(media@), (MAX_DEPTH - 2) as nat));
    put(&mut media, "contentId", text(url));
    put(&mut media, "contentType", text(content_type));
    put(&mut media, "streamType", text("LIVE"));
    assert(all_readable(object_data(media@), (MAX_DEPTH - 2) as nat));
    let media = object(media);
    assert(readable(media@, (MAX_DEPTH - 1) as nat));
    let mut members = message("LOAD");
    put(&mut members, "requestId", number(req_id));
    put(&mut members, "media", media);
    let autoplay = Json::Bool(true);
    assert(readable(autoplay@, (MAX_DEPTH - 1) as nat));
    put(&mut members, "autoplay", autoplay);
    proof {
        reveal_keys();
    }
    written(members)
}

/// Stop the current media session:
/// `{"type":"STOP","requestId":<req_id>,"mediaSessionId":<media_session_id>}`.
pub fn media_stop(req_id: u32, media_session_id: u32) -> (out: String)
    ensures
        out@ == json_written(media_stop_data(req_id, media_session_id)),
        json_parsed(out@) == Some(media_stop_data(req_id, media_session_id)),
        message_kind(out@) == Some("STOP"@),
{
    let mut members = message("STOP");
    put(&mut members, "requestId", number(req_id));
    put(&mut members, "mediaSessionId", number(media_session_id));
    proof {
        reveal_keys();
    }
    written(members)
}

/// Stop the receiver application (sent on [`NS_RECEIVER`]):
/// `{"type":"STOP","requestId":<req_id>}`.
pub fn receiver_stop(req_id: u32) -> (out: String)
    ensures
        out@ == json_written(receiver_stop_data(req_id)),
        json_parsed(out@) == Some(receiver_stop_data(req_id)),
        message_kind(out@) == Some("STOP"@),
{
    let mut members = message("STOP");
    put(&mut members, "requestId", number(req_id));
    proof {
        reveal_keys();
    }
    written(members)
}

// ── Incoming payloads ────────────────────────────────────────────────────────

/// The text of a member.
pub open spec fn text_member(d: JsonData, key: Seq<char>) -> Option<Seq<char>> {
    match member(d, key) {
        Some(v) => text_of(v),
        None => None,
    }
}

/// The text of a member.
fn member_text<'a>(v: &'a Json, key: &str) -> (out: Option<&'a str>)
    ensures
        opt_str_view(out) == text_member(v@, key@),
{
    match v.get(key) {
        Some(x) => x.as_str(),
        None => None,
    }
}

/// The applications of a RECEIVER_STATUS.
pub open spec fn applications(d: JsonData) -> Option<Seq<JsonData>> {
    match member(d, "status"@) {
        Some(status) => match member(status, "applications"@) {
            Some(apps) => items_of(apps),
            None => None,
        },
        None => None,
    }
}

/// The transport of the first application, from `i` on, that is the wanted one
/// and has a transport.
pub open spec fn transport_from(apps: Seq<JsonData>, i: int, app_id: Seq<char>) -> Option<Seq<char>>
    decreases apps.len() - i,
{
    if i < 0 || i >= apps.len() {
        None
    } else if text_member(apps[i], "appId"@) == Some(app_id) && text_member(
        apps[i],
        "transportId"@,
    ) is Some {
        text_member(apps[i], "transportId"@)
    } else {
        transport_from(apps, i + 1, app_id)
    }
}

/// The transport of a launched application in a RECEIVER_STATUS.
pub open spec fn launched(d: JsonData, app_id: Seq<char>) -> Option<Seq<char>> {
    match applications(d) {
        Some(apps) => transport_from(apps, 0, app_id),
        None => None,
    }
}

/// Find the `transportId` of the launched app in a RECEIVER_STATUS.
pub fn launched_transport_id(status: &Json, app_id: &str) -> (out: Option<String>)
    ensures
        opt_view(out) == launched(status@, app_id@),
{
    let receiver = match status.get("status") {
        Some(s) => s,
        None => return None,
    };
    let list = match receiver.get("applications") {
        Some(l) => l,
        None => return None,
    };
    let apps = match list.as_array() {
        Some(a) => a,
        None => return None,
    };
    let ghost data = applications(status@)->0;
    let mut i: usize = 0;
    while i < apps.len()
        invariant
            i <= apps@.len(),
            data.len() == apps@.len(),
            forall|k: int| 0 <= k < apps@.len() ==> data[k] == #[trigger] apps@[k]@,
            launched(status@, app_id@) == transport_from(data, i as int, app_id@),
        decreases apps@.len() - i,
    {
        assert(data[i as int] == apps@[i as int]@);
        if let Some(id) = member_text(&apps[i], "appId") {
            if same(id, app_id) {
                if let Some(tid) = member_text(&apps[i], "transportId") {
                    return Some(tid.to_owned());
                }
            }
        }
        i = i + 1;
    }
    None
}

/// The transport of a launched application in the text of a RECEIVER_STATUS.
pub open spec fn launched_in(payload: Seq<char>, app_id: Seq<char>) -> Option<Seq<char>> {
    match json_parsed(payload) {
        Some(d) => launched(d, app_id),
        None => None,
    }
}

/// Extract the `transportId` of the launched app from a RECEIVER_STATUS payload:
/// that of the first application whose `appId` matches `app_id` and that has a
/// transport; `None` if the payload is malformed or there is no such app.
pub fn parse_launched_transport_id(receiver_status_json: &str, app_id: &str) -> (out: Option<String>)
    ensures
        opt_view(out) == launched_in(receiver_status_json@, app_id@),
{
    match from_text(receiver_status_json) {
        Some(v) => launched_transport_id(&v, app_id),
        None => None,
    }
}

/// The type that a payload states.
pub open spec fn message_kind(payload: Seq<char>) -> Option<Seq<char>> {
    match json_parsed(payload) {
        Some(d) => text_member(d, "type"@),
        None => None,
    }
}

/// Find the `"type"` of a payload.
pub fn type_of(payload: &Json) -> (out: Option<String>)
    ensures
        opt_view(out) == text_member(payload@, "type"@),
{
    match member_text(payload, "type") {
        Some(s) => Some(s.to_owned()),
        None => None,
    }
}

/// Extract the `"type"` field from a JSON payload; `None` if the payload is not
/// valid JSON or lacks a string `"type"`.
pub fn message_type(payload_json: &str) -> (out: Option<String>)
    ensures
        opt_view(out) == message_kind(payload_json@),
{
    match from_text(payload_json) {
        Some(v) => type_of(&v),
        None => None,
    }
}

// ── Laws ─────────────────────────────────────────────────────────────────────

/// A LOAD asks for the stream at the given URL, as a live stream of the given type that
/// is to be played at once.
pub proof fn a_load_names_its_stream(req_id: u32, url: Seq<char>, content_type: Seq<char>)
    ensures
        load_data(req_id, url, content_type) matches JsonData::Object(m) && {
            &&& m.contains_key("type"@) && m["type"@] == JsonData::Text("LOAD"@)
            &&& m.contains_key("requestId"@) && m["requestId"@] == JsonData::Number(
                NumberData::Unsigned(req_id as u64),
            )
            &&& m.contains_key("autoplay"@) && m["autoplay"@] == JsonData::Bool(true)
            &&& m.contains_key("media"@)
            &&& m["media"@] matches JsonData::Object(media) && {
                &&& media.contains_key("contentId"@) && media["contentId"@] == JsonData::Text(url)
                &&& media.contains_key("contentType"@) && media["contentType"@] == JsonData::Text(
                    content_type,
                )
                &&& media.contains_key("streamType"@) && media["streamType"@] == JsonData::Text(
                    "LIVE"@,
                )
            }
        },
{
    reveal_keys();
}

/// A LAUNCH names the application, a STOP the session that it ends, and each of the
/// requests its number.
pub proof fn requests_say_what_they_ask_for(req_id: u32, app_id: Seq<char>, session: u32)
    ensures
        launch_data(req_id, app_id) matches JsonData::Object(m) && {
            &&& m.contains_key("type"@) && m["type"@] == JsonData::Text("LAUNCH"@)
            &&& m.contains_key("appId"@) && m["appId"@] == JsonData::Text(app_id)
            &&& m.contains_key("requestId"@) && m["requestId"@] == JsonData::Number(
                NumberData::Unsigned(req_id as u64),
            )
        },
        get_status_data(req_id) matches JsonData::Object(m) && {
            &&& m.contains_key("type"@) && m["type"@] == JsonData::Text("GET_STATUS"@)
            &&& m.contains_key("requestId"@) && m["requestId"@] == JsonData::Number(
                NumberData::Unsigned(req_id as u64),
            )
        },
        media_stop_data(req_id, session) matches JsonData::Object(m) && {
            &&& m.contains_key("type"@) && m["type"@] == JsonData::Text("STOP"@)
            &&& m.contains_key("requestId"@) && m["requestId"@] == JsonData::Number(
                NumberData::Unsigned(req_id as u64),
            )
            &&& m.contains_key("mediaSessionId"@) && m["mediaSessionId"@] == JsonData::Number(
                NumberData::Unsigned(session as u64),
            )
        },
        receiver_stop_data(req_id) matches JsonData::Object(m) && {
            &&& m.contains_key("type"@) && m["type"@] == JsonData::Text("STOP"@)
            &&& m.contains_key("requestId"@) && m["requestId"@] == JsonData::Number(
                NumberData::Unsigned(req_id as u64),
            )
            &&& !m.contains_key("mediaSessionId"@)
        },
{
    reveal_keys();
}

/// The wanted application is found in a status wherever it stands in the list, and it is
/// the first one with that id and a transport whose transport is given; nothing is given
/// only where there is none.
pub proof fn launched_applications_are_found(
    outer: Map<Seq<char>, JsonData>,
    inner: Map<Seq<char>, JsonData>,
    apps: Seq<JsonData>,
    app_id: Seq<char>,
)
    requires
        outer.contains_key("status"@),
        outer["status"@] == JsonData::Object(inner),
        inner.contains_key("applications"@),
        inner["applications"@] == JsonData::Array(apps),
    ensures
        launched(JsonData::Object(outer), app_id) is None <==> forall|k: int|
            0 <= k < apps.len() ==> !(#[trigger] apps[k] matches JsonData::Object(a)
                && a.contains_key("appId"@) && a["appId"@] == JsonData::Text(app_id)
                && a.contains_key("transportId"@) && a["transportId"@] is Text),
        launched(JsonData::Object(outer), app_id) matches Some(t) ==> exists|i: int|
            0 <= i < apps.len() && (#[trigger] apps[i] matches JsonData::Object(a)
                && a.contains_key("appId"@) && a["appId"@] == JsonData::Text(app_id)
                && a.contains_key("transportId"@) && a["transportId"@] == JsonData::Text(t))
                && forall|k: int|
                0 <= k < i ==> !(#[trigger] apps[k] matches JsonData::Object(a) && a.contains_key(
                    "appId"@,
                ) && a["appId"@] == JsonData::Text(app_id) && a.contains_key("transportId"@)
                    && a["transportId"@] is Text),
{
    lemma_transport_from(apps, 0, app_id);
}

proof fn lemma_transport_from(apps: Seq<JsonData>, from: int, app_id: Seq<char>)
    requires
        0 <= from <= apps.len(),
    ensures
        transport_from(apps, from, app_id) is None <==> forall|k: int|
            from <= k < apps.len() ==> !(#[trigger] apps[k] matches JsonData::Object(a)
                && a.contains_key("appId"@) && a["appId"@] == JsonData::Text(app_id)
                && a.contains_key("transportId"@) && a["transportId"@] is Text),
        transport_from(apps, from, app_id) matches Some(t) ==> exists|i: int|
            from <= i < apps.len() && (#[trigger] apps[i] matches JsonData::Object(a)
                && a.contains_key("appId"@) && a["appId"@] == JsonData::Text(app_id)
                && a.contains_key("transportId"@) && a["transportId"@] == JsonData::Text(t))
                && forall|k: int|
                from <= k < i ==> !(#[trigger] apps[k] matches JsonData::Object(a)
                    && a.contains_key("appId"@) && a["appId"@] == JsonData::Text(app_id)
                    && a.contains_key("transportId"@) && a["transportId"@] is Text),
    decreases apps.len() - from,
{
    if from < apps.len() {
        lemma_transport_from(apps, from + 1, app_id);
        assert(apps[from] == apps[from]);
    }
}

/// What is no status, or lists no applications, shows none that is launched.
pub proof fn without_applications_nothing_is_launched(d: JsonData, app_id: Seq<char>)
    ensures
        launched(d, app_id) is Some ==> d is Object && d->Object_0.contains_key("status"@)
            && d->Object_0["status"@] is Object,
        launched(d, app_id) is Some ==> d->Object_0["status"@]->Object_0.contains_key(
            "applications"@,
        ) && d->Object_0["status"@]->Object_0["applications"@] is Array,
{
}

/// The type of a payload is its member of that name, where it is a text.
pub proof fn types_are_read_from_the_payload(payload: Seq<char>, kind: Seq<char>)
    ensures
        message_kind(payload) == Some(kind) <==> (json_parsed(payload) matches Some(
            JsonData::Object(m),
        ) && m.contains_key("type"@) && m["type"@] == JsonData::Text(kind)),
        message_kind(payload) is None <==> !(json_parsed(payload) matches Some(JsonData::Object(m))
            && m.contains_key("type"@) && m["type"@] is Text),
{
}

} // verus!
