//! Live equaliser control via `pw-cli set-param`.
use vstd::prelude::*;
use crate::json::{array_data, from_text, items_of, json_parsed, member, number_of, text_of, Json, JsonData, NumberData};
use crate::sys::command::{asked, Answer, CommandRunner, Invocation};
use crate::text::{cat2, cat4, decimal, render, str_views, told, trim, trimmed, views};

verus! {

/// The PipeWire node whose `eq_band_N:Gain` properties are updated live: the sink
/// side of the filter-chain.
pub const EQ_NODE_NAME: &'static str = "effect_input.soundsync-eq";

/// Milliseconds between two looks for the node.
pub const NODE_POLL_MS: u64 = 50;

// ── Finding the node ─────────────────────────────────────────────────────────

/// The name of the node that an object describes.
pub open spec fn node_name_of(object: JsonData) -> Option<Seq<char>> {
    match member(object, "info"@) {
        Some(info) => match member(info, "props"@) {
            Some(props) => match member(props, "node.name"@) {
                Some(name) => text_of(name),
                None => None,
            },
            None => None,
        },
        None => None,
    }
}

/// The id of an object; `None` where it does not fit in 32 bits.
pub open spec fn object_id(object: JsonData) -> Option<int> {
    match member(object, "id"@) {
        Some(id) => match number_of(id) {
            Some(n) => if n <= u32::MAX {
                Some(n as int)
            } else {
                None
            },
            None => None,
        },
        None => None,
    }
}

/// The id of the first object, from `i` on, that is the equaliser's node.
pub open spec fn eq_node_from(objects: Seq<JsonData>, i: int) -> Option<int>
    decreases objects.len() - i,
{
    if i < 0 || i >= objects.len() {
        None
    } else if node_name_of(objects[i]) == Some(EQ_NODE_NAME@) {
        object_id(objects[i])
    } else {
        eq_node_from(objects, i + 1)
    }
}

/// The id of the equaliser's node in a `pw-dump` document.
pub open spec fn eq_node_in(document: JsonData) -> Option<int> {
    match items_of(document) {
        Some(objects) => eq_node_from(objects, 0),
        None => None,
    }
}

/// An optional id as a number.
pub open spec fn node_value(id: Option<u32>) -> Option<int> {
    match id {
        Some(n) => Some(n as int),
        None => None,
    }
}

fn is_eq_node(object: &Json) -> (r: bool)
    ensures
        r == (node_name_of(object@) == Some(EQ_NODE_NAME@)),
{
    match object.get("info") {
        Some(info) => match info.get("props") {
            Some(props) => match props.get("node.name") {
                Some(name) => match name.as_str() {
                    Some(s) => crate::text::same(s, EQ_NODE_NAME),
                    None => false,
                },
                None => false,
            },
            None => false,
        },
        None => false,
    }
}

fn id_of(object: &Json) -> (id: Option<u32>)
    ensures
        node_value(id) == object_id(object@),
{
    match object.get("id") {
        Some(id) => match id.as_u64() {
            Some(n) => if n <= u32::MAX as u64 {
                Some(n as u32)
            } else {
                None
            },
            None => None,
        },
        None => None,
    }
}

/// Find the equaliser's node in a `pw-dump` document that has been read.
pub fn eq_node_id_in(document: &Json) -> (id: Option<u32>)
    ensures
        node_value(id) == eq_node_in(document@),
{
    let objects = match document.as_array() {
        Some(objects) => objects,
        None => {
            return None;
        },
    };
    let ghost data = array_data(objects@);
    let mut i: usize = 0;
    while i < objects.len()
        invariant
            i <= objects@.len(),
            data.len() == objects@.len(),
            forall|k: int| 0 <= k < objects@.len() ==> data[k] == #[trigger] objects@[k]@,
            eq_node_in(document@) == eq_node_from(data, i as int),
        decreases objects@.len() - i,
    {
        assert(data[i as int] == objects@[i as int]@);
        if is_eq_node(&objects[i]) {
            return id_of(&objects[i]);
        }
        i = i + 1;
    }
    None
}

/// The id of the equaliser's node in the text of a `pw-dump` document.
pub open spec fn eq_node_in_text(text: Seq<char>) -> Option<int> {
    match json_parsed(text) {
        Some(document) => eq_node_in(document),
        None => None,
    }
}

/// Parse a `pw-dump` JSON array and return the PipeWire object `id` of the node
/// whose `info.props["node.name"]` equals [`EQ_NODE_NAME`].
///
/// Returns `None` on any parse error or if the node is absent.
pub fn find_eq_node_id(pw_dump_json: &str) -> (id: Option<u32>)
    ensures
        node_value(id) == eq_node_in_text(pw_dump_json@),
{
    match from_text(pw_dump_json) {
        Some(document) => eq_node_id_in(&document),
        None => None,
    }
}

/// The id of the equaliser's node in an answer of `pw-dump`.
pub open spec fn eq_node_told(answer: Answer) -> Option<int> {
    match answer {
        Ok(o) => if o.ok() {
            eq_node_in_text(o.stdout@)
        } else {
            None
        },
        Err(_) => None,
    }
}

/// Run `pw-dump` and look for the equaliser's node in what it prints.
pub fn probe_eq_node_id<R: CommandRunner>(runner: &mut R) -> (id: Option<u32>)
    ensures
        exists|run: Invocation|
            final(runner).trace() == old(runner).trace().push(run) && #[trigger] asked(
                run,
                "pw-dump"@,
                Seq::empty(),
            ) && node_value(id) == eq_node_told(run.answer),
{
    let args: [&str; 0] = [];
    let answer = runner.run("pw-dump", &args);
    proof {
        assert(str_views((&args)@) =~= Seq::empty());
        let run = Invocation { program: "pw-dump"@, args: str_views((&args)@), answer };
        assert(asked(run, "pw-dump"@, Seq::empty()));
    }
    match &answer {
        Ok(o) => if o.success() {
            find_eq_node_id(o.stdout.as_str())
        } else {
            None
        },
        Err(_) => None,
    }
}

/// What to do while waiting for the node.
#[derive(Debug, Clone, Copy, PartialEq, Eq, Structural)]
pub enum NodeWait {
    /// The node is there.
    Found(u32),
    /// The time is up.
    TimedOut,
    /// Look again after [`NODE_POLL_MS`].
    LookAgain,
}

/// Look once for the equaliser's node. `waited_ms` is the time since the wait began
/// when the look is over: a node that is there is found even where the time is up.
pub fn wait_for_eq_node(found: Option<u32>, waited_ms: u64, timeout_ms: u64) -> (next: NodeWait)
    ensures
        next == (match found {
            Some(id) => NodeWait::Found(id),
            None => if waited_ms >= timeout_ms {
                NodeWait::TimedOut
            } else {
                NodeWait::LookAgain
            },
        }),
{
    match found {
        Some(id) => NodeWait::Found(id),
        None => if waited_ms >= timeout_ms {
            NodeWait::TimedOut
        } else {
            NodeWait::LookAgain
        },
    }
}

// ── Setting gains ────────────────────────────────────────────────────────────

/// The first `n` gains as parameters.
pub open spec fn gain_list(gains: Seq<Seq<char>>, n: nat) -> Seq<char>
    decreases n,
{
    if n == 0 {
        Seq::empty()
    } else {
        gain_list(gains, (n - 1) as nat) + " \"eq_band_"@ + decimal((n - 1) as nat) + ":Gain\" "@
            + gains[n - 1]
    }
}

/// The `Props` parameter that sets these gains.
pub open spec fn gain_params(gains: Seq<Seq<char>>) -> Seq<char> {
    "{ params = ["@ + gain_list(gains, gains.len()) + " ] }"@
}

/// Build the `Props` parameter for a single `pw-cli set-param` call that sets all
/// band gains at once. `gains` holds each gain written with one decimal.
///
/// Format: `{ params = [ "eq_band_0:Gain" <g0> ... "eq_band_9:Gain" <g9> ] }`
pub fn build_gain_params(gains: &[String]) -> (out: String)
    ensures
        out@ == gain_params(views(gains@)),
{
    let ghost gv = views(gains@);
    let mut list = String::new();
    let mut i: usize = 0;
    assert(list@ =~= Seq::empty());
    while i < gains.len()
        invariant
            i <= gains@.len(),
            gv == views(gains@),
            list@ == gain_list(gv, i as nat),
        decreases gains@.len() - i,
    {
        assert(gv[i as int] == gains@[i as int]@);
        list.append(" \"eq_band_");
        list.append(render(i as u64).as_str());
        list.append(":Gain\" ");
        list.append(gains[i].as_str());
        i = i + 1;
    }
    crate::text::cat3("{ params = [", list.as_str(), " ] }")
}

/// The arguments that set the gains of a node.
pub open spec fn set_gains_args(node_id: u32, gains: Seq<Seq<char>>) -> Seq<Seq<char>> {
    seq!["set-param"@, decimal(node_id as nat), "Props"@, gain_params(gains)]
}

/// What setting the gains came to.
pub open spec fn gains_set(node_id: u32, answer: Answer) -> Result<(), Seq<char>> {
    match answer {
        Err(e) => Err("pw-cli set-param failed to spawn: "@ + e@),
        Ok(o) => if o.ok() {
            Ok(())
        } else {
            Err("pw-cli set-param "@ + decimal(node_id as nat) + " Props failed: "@ + trimmed(o.stderr@))
        },
    }
}

/// Set all band gains on the running filter-chain node via `pw-cli set-param`, in
/// one call.
pub fn set_eq_gains<R: CommandRunner>(runner: &mut R, node_id: u32, gains: &[String]) -> (r: Result<
    (),
    String,
>)
    ensures
        exists|run: Invocation|
            final(runner).trace() == old(runner).trace().push(run) && #[trigger] asked(
                run,
                "pw-cli"@,
                set_gains_args(node_id, views(gains@)),
            ) && told(r) == gains_set(node_id, run.answer),
{
    let id_str = render(node_id as u64);
    let params = build_gain_params(gains);
    let args: [&str; 4] = ["set-param", id_str.as_str(), "Props", params.as_str()];
    let answer = runner.run("pw-cli", &args);
    proof {
        assert(str_views((&args)@) =~= set_gains_args(node_id, views(gains@)));
        let run = Invocation { program: "pw-cli"@, args: str_views((&args)@), answer };
        assert(asked(run, "pw-cli"@, set_gains_args(node_id, views(gains@))));
    }
    match &answer {
        Err(e) => Err(cat2("pw-cli set-param failed to spawn: ", e.as_str())),
        Ok(o) => if o.success() {
            Ok(())
        } else {
            Err(
                cat4(
                    "pw-cli set-param ",
                    id_str.as_str(),
                    " Props failed: ",
                    trim(o.stderr.as_str()).as_str(),
                ),
            )
        },
    }
}

// ── Laws ─────────────────────────────────────────────────────────────────────

/// An object is the node of that name where its properties say so, and has the id that
/// it states, where that fits in 32 bits.
pub proof fn objects_are_read_by_their_members(
    outer: Map<Seq<char>, JsonData>,
    info: Map<Seq<char>, JsonData>,
    props: Map<Seq<char>, JsonData>,
    name: Seq<char>,
    n: u64,
)
    requires
        outer.contains_key("info"@) && outer["info"@] == JsonData::Object(info),
        info.contains_key("props"@) && info["props"@] == JsonData::Object(props),
        props.contains_key("node.name"@) && props["node.name"@] == JsonData::Text(name),
        outer.contains_key("id"@) && outer["id"@] == JsonData::Number(NumberData::Unsigned(n)),
    ensures
        node_name_of(JsonData::Object(outer)) == Some(name),
        n <= 0xffff_ffff ==> object_id(JsonData::Object(outer)) == Some(n as int),
        n > 0xffff_ffff ==> object_id(JsonData::Object(outer)) is None,
{
}

/// The node of the equaliser is found wherever it stands in the document: it is the
/// first object of that name whose id is given. Nothing is found where there is none.
pub proof fn the_equaliser_is_found_by_name(objects: Seq<JsonData>)
    ensures
        forall|i: int|
            0 <= i < objects.len() && node_name_of(#[trigger] objects[i]) == Some(
                "effect_input.soundsync-eq"@,
            ) && (forall|k: int|
                0 <= k < i ==> node_name_of(#[trigger] objects[k]) != Some(
                    "effect_input.soundsync-eq"@,
                )) ==> eq_node_in(JsonData::Array(objects)) == object_id(objects[i]),
        (forall|k: int|
            0 <= k < objects.len() ==> node_name_of(#[trigger] objects[k]) != Some(
                "effect_input.soundsync-eq"@,
            )) ==> eq_node_in(JsonData::Array(objects)) is None,
{
    assert forall|i: int|
        0 <= i < objects.len() && node_name_of(#[trigger] objects[i]) == Some(
            "effect_input.soundsync-eq"@,
        ) && (forall|k: int|
            0 <= k < i ==> node_name_of(#[trigger] objects[k]) != Some(
                "effect_input.soundsync-eq"@,
            )) implies eq_node_in(JsonData::Array(objects)) == object_id(objects[i]) by {
        lemma_eq_node_at(objects, 0, i);
    }
    if forall|k: int|
        0 <= k < objects.len() ==> node_name_of(#[trigger] objects[k]) != Some(
            "effect_input.soundsync-eq"@,
        ) {
        lemma_no_eq_node(objects, 0);
    }
}

proof fn lemma_eq_node_at(objects: Seq<JsonData>, from: int, i: int)
    requires
        0 <= from <= i < objects.len(),
        node_name_of(objects[i]) == Some(EQ_NODE_NAME@),
        forall|k: int| 0 <= k < i ==> node_name_of(#[trigger] objects[k]) != Some(EQ_NODE_NAME@),
    ensures
        eq_node_from(objects, from) == object_id(objects[i]),
    decreases i - from,
{
    if from < i {
        lemma_eq_node_at(objects, from + 1, i);
    }
}

proof fn lemma_no_eq_node(objects: Seq<JsonData>, from: int)
    requires
        0 <= from <= objects.len(),
        forall|k: int|
            0 <= k < objects.len() ==> node_name_of(#[trigger] objects[k]) != Some(EQ_NODE_NAME@),
    ensures
        eq_node_from(objects, from) is None,
    decreases objects.len() - from,
{
    if from < objects.len() {
        lemma_no_eq_node(objects, from + 1);
    }
}

/// Only what `pw-dump` printed with success is searched.
pub proof fn failed_dumps_show_no_node(answer: Answer)
    ensures
        answer is Err ==> eq_node_told(answer) is None,
        answer is Ok && answer->Ok_0.status != 0 ==> eq_node_told(answer) is None,
        answer is Ok && answer->Ok_0.status == 0 ==> eq_node_told(answer) == (match json_parsed(
            answer->Ok_0.stdout@,
        ) {
            Some(document) => eq_node_in(document),
            None => None,
        }),
{
}

/// The parameter sets the gain of every band, under the name of that band.
pub proof fn every_band_gets_its_gain(gains: Seq<Seq<char>>, i: int)
    requires
        0 <= i < gains.len(),
    ensures
        exists|a: Seq<char>, b: Seq<char>|
            gain_params(gains) == #[trigger] ("{ params = ["@ + a + (" \"eq_band_"@ + decimal(i as nat)
                + ":Gain\" "@ + gains[i]) + b + " ] }"@),
{
    let (a, b) = lemma_gain_in_list(gains, i, gains.len());
    let own = " \"eq_band_"@ + decimal(i as nat) + ":Gain\" "@ + gains[i];
    assert(gain_params(gains) =~= "{ params = ["@ + a + own + b + " ] }"@);
}

proof fn lemma_gain_in_list(gains: Seq<Seq<char>>, i: int, n: nat) -> (r: (Seq<char>, Seq<char>))
    requires
        0 <= i < n <= gains.len(),
    ensures
        gain_list(gains, n) == r.0 + (" \"eq_band_"@ + decimal(i as nat) + ":Gain\" "@ + gains[i])
            + r.1,
    decreases n,
{
    let own = " \"eq_band_"@ + decimal((n - 1) as nat) + ":Gain\" "@ + gains[n - 1];
    let head = gain_list(gains, (n - 1) as nat);
    assert(gain_list(gains, n) =~= head + own);
    if i == n - 1 {
        assert(head + own =~= head + own + Seq::<char>::empty());
        (head, Seq::empty())
    } else {
        let (a, b) = lemma_gain_in_list(gains, i, (n - 1) as nat);
        let mine = " \"eq_band_"@ + decimal(i as nat) + ":Gain\" "@ + gains[i];
        assert((a + mine + b) + own =~= a + mine + (b + own));
        (a, b + own)
    }
}

/// Gains are set exactly where `pw-cli` succeeds; a failure tells what it printed or why
/// it could not be started.
pub proof fn setting_gains_tells_the_truth(node_id: u32, answer: Answer)
    ensures
        gains_set(node_id, answer) is Ok <==> answer is Ok && answer->Ok_0.status == 0,
        answer is Err ==> crate::text::ends(gains_set(node_id, answer)->Err_0, answer->Err_0@),
        answer is Ok && answer->Ok_0.status != 0 ==> crate::text::ends(
            gains_set(node_id, answer)->Err_0,
            trimmed(answer->Ok_0.stderr@),
        ),
{
    if let Err(e) = answer {
        crate::text::searching_goes_by_the_characters(gains_set(node_id, answer)->Err_0, e@);
    } else if answer->Ok_0.status != 0 {
        crate::text::searching_goes_by_the_characters(
            gains_set(node_id, answer)->Err_0,
            trimmed(answer->Ok_0.stderr@),
        );
    }
}

/// Gains are set on the node of that id, as its properties, all in one call.
pub proof fn gains_are_set_on_the_node(node_id: u32, gains: Seq<Seq<char>>)
    ensures
        set_gains_args(node_id, gains) == seq![
            "set-param"@,
            decimal(node_id as nat),
            "Props"@,
            gain_params(gains),
        ],
{
}

/// The node is looked for in the document that a text holds, which is a list of objects.
pub proof fn dumps_are_read_as_documents(text: Seq<char>)
    ensures
        json_parsed(text) is None ==> eq_node_in_text(text) is None,
        json_parsed(text) matches Some(document) ==> eq_node_in_text(text) == eq_node_in(document),
        eq_node_in_text(text) is Some ==> (json_parsed(text) matches Some(JsonData::Array(_))),
{
}

/// Setting the gains fails exactly where the call does, and says of which node and why.
pub proof fn failed_gains_are_told(node_id: u32, answer: Answer)
    ensures
        gains_set(node_id, answer) is Ok <==> answer is Ok && answer->Ok_0.status == 0,
        answer matches Err(e) ==> gains_set(node_id, answer) == Err::<(), Seq<char>>(
            "pw-cli set-param failed to spawn: "@ + e@,
        ),
        answer is Ok && answer->Ok_0.status != 0 ==> gains_set(node_id, answer) == Err::<
            (),
            Seq<char>,
        >(
            "pw-cli set-param "@ + decimal(node_id as nat) + " Props failed: "@ + trimmed(
                answer->Ok_0.stderr@,
            ),
        ),
{
}

} // verus!
