//! Parsers for `pactl list modules` and `wpctl status` output.
use vstd::prelude::*;
use crate::text::{
    alphanumeric, cat2, chars_of, contains, digit, first_at, holds, index_of, is_alphanumeric,
    lines, lines_of, matches_at, occurs_at, parse_u32, parsed, pieces, same, split, starts,
    starts_with, string_of, strip_prefix, trim, trimmed, views, decimal, digits_have_their_places,
    lemma_first_at_is, texts_part_at_the_first_separator, trimming_takes_white_space_off_the_ends,
    white, written_numbers_read_back,
};

verus! {

// ── Verbose module list ──────────────────────────────────────────────────────

/// What has been read of a block of `pactl list modules`: the id of the module,
/// and whether it is a null sink.
pub struct Block {
    pub id: Option<nat>,
    pub is_null_sink: bool,
}

/// The block after one more line; a line that starts a module starts a new block.
pub open spec fn block_after(b: Block, line: Seq<char>) -> Block {
    let l = trimmed(line);
    if starts(l, "Module #"@) {
        Block {
            id: parsed(l.skip("Module #"@.len() as int), u32::MAX as nat),
            is_null_sink: false,
        }
    } else if starts(l, "Name:"@) {
        Block { is_null_sink: holds(l, "module-null-sink"@), ..b }
    } else {
        b
    }
}

/// Whether a line is the argument of a null sink that mentions the sink.
pub open spec fn is_match(b: Block, line: Seq<char>, sink_name: Seq<char>) -> bool {
    let l = trimmed(line);
    &&& !starts(l, "Module #"@)
    &&& !starts(l, "Name:"@)
    &&& starts(l, "Argument:"@)
    &&& b.is_null_sink
    &&& holds(l, sink_name)
}

/// The id of the first null sink, from line `i` on, whose argument mentions the
/// sink.
pub open spec fn null_sink_from(ls: Seq<Seq<char>>, i: int, b: Block, sink_name: Seq<char>) -> Option<
    nat,
>
    decreases ls.len() - i,
{
    if i < 0 || i >= ls.len() {
        None
    } else if is_match(b, ls[i], sink_name) {
        b.id
    } else {
        null_sink_from(ls, i + 1, block_after(b, ls[i]), sink_name)
    }
}

/// The id of the null sink in the output of `pactl list modules`.
pub open spec fn null_sink_in(output: Seq<char>, sink_name: Seq<char>) -> Option<nat> {
    null_sink_from(lines_of(output), 0, Block { id: None, is_null_sink: false }, sink_name)
}

/// An optional id as a number.
pub open spec fn id_value(id: Option<u32>) -> Option<nat> {
    match id {
        Some(n) => Some(n as nat),
        None => None,
    }
}

/// Find the module id of a `module-null-sink` whose argument mentions `sink_name`,
/// by scanning `pactl list modules` output.
pub fn parse_null_sink_module_id(pactl_output: &str, sink_name: &str) -> (id: Option<u32>)
    ensures
        id_value(id) == null_sink_in(pactl_output@, sink_name@),
{
    let ls = lines(pactl_output);
    let ghost lv = views(ls@);
    let mut current_id: Option<u32> = None;
    let mut is_null_sink = false;
    let mut i: usize = 0;
    while i < ls.len()
        invariant
            i <= ls@.len(),
            lv == views(ls@),
            null_sink_in(pactl_output@, sink_name@) == null_sink_from(
                lv,
                i as int,
                Block { id: id_value(current_id), is_null_sink },
                sink_name@,
            ),
        decreases ls@.len() - i,
    {
        let line = trim(ls[i].as_str());
        assert(lv[i as int] == ls@[i as int]@);
        if let Some(rest) = strip_prefix(line.as_str(), "Module #") {
            current_id = parse_u32(rest.as_str());
            is_null_sink = false;
        } else if starts_with(line.as_str(), "Name:") {
            is_null_sink = contains(line.as_str(), "module-null-sink");
        } else if starts_with(line.as_str(), "Argument:") && is_null_sink && contains(
            line.as_str(),
            sink_name,
        ) {
            return current_id;
        }
        i = i + 1;
    }
    None
}

// ── Whole tokens ─────────────────────────────────────────────────────────────

/// A character that can be part of a node name.
pub open spec fn name_char(c: char) -> bool {
    alphanumeric(c) || c == '.' || c == '-' || c == '_'
}

/// A node-name character: a match must not be flanked by these, so that a search
/// for `soundsync-capture` does not find `soundsync-capture.monitor`.
pub fn is_name_char(c: char) -> (r: bool)
    ensures
        r == name_char(c),
{
    is_alphanumeric(c) || c == '.' || c == '-' || c == '_'
}

/// Whether `name` stands in `line` at `i` as a whole token.
pub open spec fn token_at(line: Seq<char>, name: Seq<char>, i: int) -> bool {
    &&& occurs_at(line, name, i)
    &&& i > 0 ==> !name_char(line[i - 1])
    &&& i + name.len() < line.len() ==> !name_char(line[i + name.len()])
}

/// Whether `name` is found as a whole token when `line` is searched from `from` on,
/// each search going on behind the match before it.
pub open spec fn token_found(line: Seq<char>, name: Seq<char>, from: int) -> bool
    decreases line.len() - from,
{
    if from < 0 || from >= line.len() || name.len() == 0 {
        false
    } else if occurs_at(line, name, from) {
        token_at(line, name, from) || token_found(line, name, from + name.len())
    } else {
        token_found(line, name, from + 1)
    }
}

/// True if `name` appears in `line` as a whole token, not as a part of a longer
/// node name like `<name>.monitor`. The empty name is found nowhere.
pub fn line_contains_node_token(line: &str, name: &str) -> (r: bool)
    ensures
        r == token_found(line@, name@, 0),
{
    let cs = chars_of(line);
    let ns = chars_of(name);
    if ns.len() == 0 {
        return false;
    }
    let mut from: usize = 0;
    while from < cs.len()
        invariant
            from <= cs@.len(),
            cs@ == line@,
            ns@ == name@,
            name@.len() > 0,
            token_found(line@, name@, 0) == token_found(line@, name@, from as int),
        decreases cs@.len() - from,
    {
        if matches_at(&cs, from, &ns) {
            let end: usize = from + ns.len();
            let free_before = from == 0 || !is_name_char(cs[from - 1]);
            let free_after = end == cs.len() || !is_name_char(cs[end]);
            if free_before && free_after {
                return true;
            }
            from = end;
        } else {
            from = from + 1;
        }
    }
    false
}

/// A name that is found as a token stands in the line as one.
pub proof fn found_tokens_stand_alone(line: Seq<char>, name: Seq<char>, from: int)
    requires
        token_found(line, name, from),
    ensures
        exists|i: int| from <= i && token_at(line, name, i),
    decreases line.len() - from,
{
    if occurs_at(line, name, from) {
        if !token_at(line, name, from) {
            found_tokens_stand_alone(line, name, from + name.len());
        }
    } else {
        found_tokens_stand_alone(line, name, from + 1);
    }
}

// ── Short module list ────────────────────────────────────────────────────────

/// The id in a line of `pactl list short modules`, if the line is of a null sink of
/// that name.
pub open spec fn null_sink_line(line: Seq<char>, sink_name: Seq<char>) -> Option<nat> {
    let f = pieces(line, '\t');
    if f.len() >= 3 && trimmed(f[1]) == "module-null-sink"@ && token_found(
        f[2],
        "sink_name="@ + sink_name,
        0,
    ) {
        parsed(trimmed(f[0]), u32::MAX as nat)
    } else {
        None
    }
}

/// The ids in these lines, in their order.
pub open spec fn null_sinks_of(ls: Seq<Seq<char>>, sink_name: Seq<char>) -> Seq<u32>
    decreases ls.len(),
{
    if ls.len() == 0 {
        Seq::empty()
    } else {
        let head = null_sinks_of(ls.drop_last(), sink_name);
        match null_sink_line(ls.last(), sink_name) {
            Some(id) => head.push(id as u32),
            None => head,
        }
    }
}

fn parse_null_sink_line(line: &str, needle: &str) -> (id: Option<u32>)
    ensures
        id_value(id) == ({
            let f = pieces(line@, '\t');
            if f.len() >= 3 && trimmed(f[1]) == "module-null-sink"@ && token_found(f[2], needle@, 0) {
                parsed(trimmed(f[0]), u32::MAX as nat)
            } else {
                None
            }
        }),
{
    let fields = split(line, '\t');
    let ghost f = views(fields@);
    if fields.len() < 3 {
        return None;
    }
    assert(f[0] == fields@[0]@ && f[1] == fields@[1]@ && f[2] == fields@[2]@);
    if !same(trim(fields[1].as_str()).as_str(), "module-null-sink") {
        return None;
    }
    if !line_contains_node_token(fields[2].as_str(), needle) {
        return None;
    }
    parse_u32(trim(fields[0].as_str()).as_str())
}

/// Find all `module-null-sink` module ids whose argument contains
/// `sink_name=<sink_name>`, by scanning `pactl list short modules` output.
///
/// Duplicate null sinks carry the same node name: only the argument of the module
/// tells whose they are.
pub fn parse_all_null_sink_module_ids(short_modules_output: &str, sink_name: &str) -> (ids: Vec<u32>)
    ensures
        ids@ == null_sinks_of(lines_of(short_modules_output@), sink_name@),
{
    let needle = cat2("sink_name=", sink_name);
    let ls = lines(short_modules_output);
    let ghost lv = views(ls@);
    let mut ids: Vec<u32> = Vec::new();
    let mut i: usize = 0;
    assert(lv.take(0) =~= Seq::empty());
    while i < ls.len()
        invariant
            i <= ls@.len(),
            lv == views(ls@),
            needle@ == "sink_name="@ + sink_name@,
            ids@ == null_sinks_of(lv.take(i as int), sink_name@),
        decreases ls@.len() - i,
    {
        assert(lv.take(i as int + 1).drop_last() =~= lv.take(i as int));
        assert(lv.take(i as int + 1).last() == ls@[i as int]@);
        if let Some(id) = parse_null_sink_line(ls[i].as_str(), needle.as_str()) {
            ids.push(id);
        }
        i = i + 1;
    }
    assert(lv.take(lv.len() as int) =~= lv);
    ids
}

// ── wpctl status ─────────────────────────────────────────────────────────────

/// `s` from its first digit on.
pub open spec fn from_digit(s: Seq<char>) -> Seq<char>
    decreases s.len(),
{
    if s.len() == 0 || digit(s[0]) {
        s
    } else {
        from_digit(s.drop_first())
    }
}

/// The number that stands before the first dot behind the first digit of a line.
pub open spec fn leading_number(line: Seq<char>) -> Option<nat> {
    let l = from_digit(trimmed(line));
    let dot = first_at(l, '.') as int;
    if dot < l.len() {
        parsed(trimmed(l.take(dot)), u32::MAX as nat)
    } else {
        None
    }
}

/// The number of the first line, from `i` on, that has one and holds the node's
/// name as a token.
pub open spec fn node_id_from(ls: Seq<Seq<char>>, i: int, node_name: Seq<char>) -> Option<nat>
    decreases ls.len() - i,
{
    if i < 0 || i >= ls.len() {
        None
    } else if token_found(ls[i], node_name, 0) && leading_number(ls[i]) is Some {
        leading_number(ls[i])
    } else {
        node_id_from(ls, i + 1, node_name)
    }
}

fn parse_leading_number(line: &str) -> (out: Option<u32>)
    ensures
        id_value(out) == leading_number(line@),
{
    let t = trim(line);
    let cs = chars_of(t.as_str());
    let mut start: usize = 0;
    assert(cs@.skip(0) =~= cs@);
    while start < cs.len() && !((cs[start] as u32) >= 0x30 && (cs[start] as u32) <= 0x39)
        invariant
            start <= cs@.len(),
            from_digit(cs@) == from_digit(cs@.skip(start as int)),
        decreases cs@.len() - start,
    {
        assert(cs@.skip(start as int).drop_first() =~= cs@.skip(start as int + 1));
        start = start + 1;
    }
    let ghost l = cs@.skip(start as int);
    assert(from_digit(trimmed(line@)) == l);
    let dot: usize = index_of(&cs, start, '.');
    if dot < cs.len() {
        let number = string_of(&cs, start, dot);
        assert(number@ =~= l.take(dot - start));
        parse_u32(trim(number.as_str()).as_str())
    } else {
        None
    }
}

/// Find a node id by name in `wpctl status` output (the number before the dot).
/// The name is matched as a whole token, so that the `.monitor` source is never
/// mistaken for the sink.
pub fn find_wpctl_node_id(status_output: &str, node_name: &str) -> (id: Option<u32>)
    ensures
        id_value(id) == node_id_from(lines_of(status_output@), 0, node_name@),
{
    let ls = lines(status_output);
    let ghost lv = views(ls@);
    let mut i: usize = 0;
    while i < ls.len()
        invariant
            i <= ls@.len(),
            lv == views(ls@),
            lv == lines_of(status_output@),
            node_id_from(lv, 0, node_name@) == node_id_from(lv, i as int, node_name@),
        decreases ls@.len() - i,
    {
        assert(lv[i as int] == ls@[i as int]@);
        if line_contains_node_token(ls[i].as_str(), node_name) {
            let id = parse_leading_number(ls[i].as_str());
            if id.is_some() {
                return id;
            }
        }
        i = i + 1;
    }
    None
}

// ── Laws ─────────────────────────────────────────────────────────────────────

proof fn lemma_line_kinds(l: Seq<char>)
    ensures
        starts(l, "Argument:"@) ==> !starts(l, "Module #"@) && !starts(l, "Name:"@),
        starts(l, "Name:"@) ==> !starts(l, "Module #"@) && !starts(l, "Argument:"@),
        starts(l, "Module #"@) ==> !starts(l, "Name:"@) && !starts(l, "Argument:"@),
{
    reveal_strlit("Argument:");
    reveal_strlit("Module #");
    reveal_strlit("Name:");
    if starts(l, "Argument:"@) {
        assert(l.take(9)[0] == 'A');
        assert(l[0] == 'A');
    }
    if starts(l, "Module #"@) {
        assert(l.take(8)[0] == 'M');
        assert(l[0] == 'M');
    }
    if starts(l, "Name:"@) {
        assert(l.take(5)[0] == 'N');
        assert(l[0] == 'N');
    }
}

/// The id of a null sink is that of its own block, whatever was read before: a line
/// with the id, one with the name of the module, and one whose argument mentions the
/// sink.
pub proof fn null_sinks_have_the_id_of_their_block(
    ls: Seq<Seq<char>>,
    i: int,
    b: Block,
    sink_name: Seq<char>,
    n: u32,
)
    requires
        0 <= i,
        i + 2 < ls.len(),
        trimmed(ls[i]) == "Module #"@ + decimal(n as nat),
        starts(trimmed(ls[i + 1]), "Name:"@),
        holds(trimmed(ls[i + 1]), "module-null-sink"@),
        starts(trimmed(ls[i + 2]), "Argument:"@),
        holds(trimmed(ls[i + 2]), sink_name),
    ensures
        null_sink_from(ls, i, b, sink_name) == Some(n as nat),
{
    let head = "Module #"@;
    let l = trimmed(ls[i]);
    assert(l.take(head.len() as int) =~= head);
    assert(l.skip(head.len() as int) =~= decimal(n as nat));
    written_numbers_read_back(n as nat, u32::MAX as nat);
    lemma_line_kinds(l);
    lemma_line_kinds(trimmed(ls[i + 1]));
    lemma_line_kinds(trimmed(ls[i + 2]));
    reveal_with_fuel(null_sink_from, 3);
}

/// A block of another module, or one whose argument does not mention the sink, is passed
/// over.
pub proof fn other_modules_are_passed_over(
    ls: Seq<Seq<char>>,
    i: int,
    b: Block,
    c: Block,
    sink_name: Seq<char>,
)
    requires
        0 <= i,
        i + 3 <= ls.len(),
        starts(trimmed(ls[i]), "Module #"@),
        starts(trimmed(ls[i + 1]), "Name:"@),
        starts(trimmed(ls[i + 2]), "Argument:"@),
        !holds(trimmed(ls[i + 1]), "module-null-sink"@) || !holds(trimmed(ls[i + 2]), sink_name),
        i + 3 < ls.len() ==> starts(trimmed(ls[i + 3]), "Module #"@),
    ensures
        null_sink_from(ls, i, b, sink_name) == null_sink_from(ls, i + 3, c, sink_name),
{
    lemma_line_kinds(trimmed(ls[i]));
    lemma_line_kinds(trimmed(ls[i + 1]));
    lemma_line_kinds(trimmed(ls[i + 2]));
    let d = block_after(block_after(block_after(b, ls[i]), ls[i + 1]), ls[i + 2]);
    assert(null_sink_from(ls, i, b, sink_name) == null_sink_from(ls, i + 3, d, sink_name)) by {
        reveal_with_fuel(null_sink_from, 4);
    }
    if i + 3 < ls.len() {
        lemma_line_kinds(trimmed(ls[i + 3]));
        assert(block_after(d, ls[i + 3]) == block_after(c, ls[i + 3]));
    }
}

/// A name that stands in a line as a whole token is found, unless another occurrence of
/// it reaches into the token.
pub proof fn whole_tokens_are_found(line: Seq<char>, name: Seq<char>, from: int, i: int)
    requires
        0 <= from <= i,
        name.len() > 0,
        token_at(line, name, i),
        forall|j: int| i - name.len() < j < i ==> !#[trigger] occurs_at(line, name, j),
    ensures
        token_found(line, name, from),
    decreases i - from,
{
    if from < i {
        if occurs_at(line, name, from) {
            if !token_at(line, name, from) {
                whole_tokens_are_found(line, name, from + name.len(), i);
            }
        } else {
            whole_tokens_are_found(line, name, from + 1, i);
        }
    }
}

/// A name that a longer name goes on with, such as that of a monitor, is not a token
/// there; the signs that names hold besides letters and digits are the dot, the hyphen
/// and the underscore.
pub proof fn longer_names_are_no_tokens(a: Seq<char>, name: Seq<char>, c: char, b: Seq<char>)
    requires
        c == '.' || c == '-' || c == '_',
    ensures
        !token_at(a + name + seq![c] + b, name, a.len() as int),
        !token_at(a + seq![c] + name + b, name, a.len() as int + 1),
{
    let s = a + name + seq![c] + b;
    assert(s[a.len() as int + name.len()] == c);
    let r = a + seq![c] + name + b;
    assert(r[a.len() as int] == c);
}

/// A line of the short list gives the id of its first field where its second field is
/// that of a null sink and its third names the sink; a line of any other module gives
/// none.
pub proof fn short_lines_give_their_id(
    id: Seq<char>,
    module: Seq<char>,
    argument: Seq<char>,
    sink_name: Seq<char>,
)
    requires
        !id.contains('\t'),
        !module.contains('\t'),
        !argument.contains('\t'),
    ensures
        trimmed(module) == "module-null-sink"@ && token_found(
            argument,
            "sink_name="@ + sink_name,
            0,
        ) ==> null_sink_line(
            id + seq!['\t'] + module + seq!['\t'] + argument,
            sink_name,
        ) == parsed(trimmed(id), u32::MAX as nat),
        trimmed(module) != "module-null-sink"@ || !token_found(
            argument,
            "sink_name="@ + sink_name,
            0,
        ) ==> null_sink_line(
            id + seq!['\t'] + module + seq!['\t'] + argument,
            sink_name,
        ) is None,
        null_sink_line(id + seq!['\t'] + module, sink_name) is None,
        null_sink_line(id, sink_name) is None,
{
    let tail = module + seq!['\t'] + argument;
    assert(id + seq!['\t'] + module + seq!['\t'] + argument =~= id + seq!['\t'] + tail);
    texts_part_at_the_first_separator(id, '\t', tail);
    texts_part_at_the_first_separator(id, '\t', module);
    texts_part_at_the_first_separator(module, '\t', argument);
    texts_part_at_the_first_separator(argument, '\t', argument);
    let f = pieces(id + seq!['\t'] + tail, '\t');
    assert(f =~= seq![id, module, argument]);
    assert(pieces(id + seq!['\t'] + module, '\t') =~= seq![id, module]);
}

/// Every line that gives an id has it listed, at whatever position it stands, and every
/// listed id is given by a line.
pub proof fn given_ids_are_listed(ls: Seq<Seq<char>>, sink_name: Seq<char>, id: u32)
    ensures
        null_sinks_of(ls, sink_name).contains(id) <==> exists|k: int|
            0 <= k < ls.len() && null_sink_line(#[trigger] ls[k], sink_name) == Some(id as nat),
    decreases ls.len(),
{
    let all = null_sinks_of(ls, sink_name);
    if ls.len() > 0 {
        let front = ls.drop_last();
        let n = ls.len() - 1;
        given_ids_are_listed(front, sink_name, id);
        let head = null_sinks_of(front, sink_name);
        if head.contains(id) {
            let a = choose|a: int| 0 <= a < head.len() && head[a] == id;
            assert(all[a] == id);
            let k = choose|k: int|
                0 <= k < front.len() && null_sink_line(#[trigger] front[k], sink_name) == Some(
                    id as nat,
                );
            assert(ls[k] == front[k]);
        }
        if null_sink_line(ls[n], sink_name) == Some(id as nat) {
            assert(all[head.len() as int] == id);
        }
        if exists|k: int|
            0 <= k < ls.len() && null_sink_line(#[trigger] ls[k], sink_name) == Some(id as nat) {
            let k = choose|k: int|
                0 <= k < ls.len() && null_sink_line(#[trigger] ls[k], sink_name) == Some(id as nat);
            if k < n {
                assert(front[k] == ls[k]);
            }
        }
        if all.contains(id) && !head.contains(id) {
            let a = choose|a: int| 0 <= a < all.len() && all[a] == id;
            if a < head.len() {
                assert(head[a] == id);
            }
            assert(null_sink_line(ls[n], sink_name) is Some);
            let f = pieces(ls[n], '\t');
            assert(parsed(trimmed(f[0]), u32::MAX as nat) is Some);
        }
    }
}

/// The number of a line is read from its first digit up to the dot behind it, whatever
/// stands before and after.
pub proof fn leading_numbers_are_read(line: Seq<char>, a: Seq<char>, n: u32, b: Seq<char>)
    requires
        forall|k: int| 0 <= k < a.len() ==> !digit(#[trigger] a[k]),
        trimmed(line) == a + decimal(n as nat) + "."@ + b,
    ensures
        leading_number(line) == Some(n as nat),
{
    reveal_strlit(".");
    let d = decimal(n as nat);
    digits_have_their_places(n as nat);
    let l = d + "."@ + b;
    assert(a + d + "."@ + b =~= a + l);
    assert(l[0] == d[0]);
    lemma_from_digit(a, l);
    assert forall|k: int| 0 <= k < d.len() implies l[k] != '.' by {
        assert(l[k] == d[k]);
    }
    assert(l[d.len() as int] == '.');
    lemma_first_at_is(l, '.', d.len() as int);
    assert(l.take(d.len() as int) =~= d);
    lemma_digits_are_kept(n as nat);
    written_numbers_read_back(n as nat, u32::MAX as nat);
}

proof fn lemma_from_digit(a: Seq<char>, l: Seq<char>)
    requires
        forall|k: int| 0 <= k < a.len() ==> !digit(#[trigger] a[k]),
        l.len() > 0,
        digit(l[0]),
    ensures
        from_digit(a + l) == l,
    decreases a.len(),
{
    if a.len() > 0 {
        let r = a.drop_first();
        assert forall|k: int| 0 <= k < r.len() implies !digit(#[trigger] r[k]) by {
            assert(r[k] == a[k + 1]);
        }
        assert((a + l)[0] == a[0]);
        assert((a + l).drop_first() =~= r + l);
        lemma_from_digit(r, l);
    } else {
        assert(a + l =~= l);
    }
}

proof fn lemma_digits_are_kept(n: nat)
    ensures
        trimmed(decimal(n)) == decimal(n),
{
    let d = decimal(n);
    digits_have_their_places(n);
    assert(0x30 <= d[0] as u32 <= 0x39);
    assert(0x30 <= d[d.len() - 1] as u32 <= 0x39);
    assert(!white(d[0]) && !white(d.last()));
    trimming_takes_white_space_off_the_ends(d);
}

/// The node is found in the first line that holds its name as a token and has a number,
/// at whatever position that line stands; nothing is found only where there is none.
pub proof fn nodes_are_found_by_name(ls: Seq<Seq<char>>, node_name: Seq<char>)
    ensures
        node_id_from(ls, 0, node_name) is None <==> forall|k: int|
            0 <= k < ls.len() ==> !(token_found(#[trigger] ls[k], node_name, 0) && leading_number(
                ls[k],
            ) is Some),
        node_id_from(ls, 0, node_name) is Some ==> exists|i: int|
            0 <= i < ls.len() && token_found(#[trigger] ls[i], node_name, 0) && leading_number(ls[i])
                == node_id_from(ls, 0, node_name) && forall|k: int|
                0 <= k < i ==> !(token_found(#[trigger] ls[k], node_name, 0) && leading_number(
                    ls[k],
                ) is Some),
{
    lemma_node_id(ls, 0, node_name);
}

proof fn lemma_node_id(ls: Seq<Seq<char>>, from: int, node_name: Seq<char>)
    requires
        0 <= from <= ls.len(),
    ensures
        node_id_from(ls, from, node_name) is None <==> forall|k: int|
            from <= k < ls.len() ==> !(token_found(#[trigger] ls[k], node_name, 0)
                && leading_number(ls[k]) is Some),
        node_id_from(ls, from, node_name) is Some ==> exists|i: int|
            from <= i < ls.len() && token_found(#[trigger] ls[i], node_name, 0) && leading_number(
                ls[i],
            ) == node_id_from(ls, from, node_name) && forall|k: int|
                from <= k < i ==> !(token_found(#[trigger] ls[k], node_name, 0) && leading_number(
                    ls[k],
                ) is Some),
    decreases ls.len() - from,
{
    if from < ls.len() {
        lemma_node_id(ls, from + 1, node_name);
        assert(ls[from] == ls[from]);
    }
}

} // verus!
