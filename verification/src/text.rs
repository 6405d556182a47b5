//! Text primitives: every function is stated over the sequence of characters
//! that a string holds, so positions count characters, never bytes.
use vstd::prelude::*;

verus! {

/// `String::push` appends one character at the end.
pub assume_specification[ std::string::String::push ](s: &mut std::string::String, c: char)
    ensures
        final(s)@ == old(s)@.push(c),
;

/// The characters that each string of a list holds.
pub open spec fn views(v: Seq<String>) -> Seq<Seq<char>> {
    v.map_values(|s: String| s@)
}

/// The characters that each string slice of a list holds.
pub open spec fn str_views(v: Seq<&str>) -> Seq<Seq<char>> {
    v.map_values(|s: &str| s@)
}

/// The characters of an optional string.
pub open spec fn opt_view(o: Option<String>) -> Option<Seq<char>> {
    match o {
        Some(s) => Some(s@),
        None => None,
    }
}

/// The characters of an optional string slice.
pub open spec fn opt_str_view(o: Option<&str>) -> Option<Seq<char>> {
    match o {
        Some(s) => Some(s@),
        None => None,
    }
}

// ── Conversions ──────────────────────────────────────────────────────────────

/// The characters of a string.
pub fn chars_of(s: &str) -> (out: Vec<char>)
    ensures
        out@ == s@,
{
    let mut out: Vec<char> = Vec::new();
    for c in it: s.chars()
        invariant
            out@ == s@.take(it.index() as int),
            it.seq() == s@,
    {
        out.push(c);
    }
    out
}

/// The string made of `cs[from..to]`.
pub fn string_of(cs: &[char], from: usize, to: usize) -> (out: String)
    requires
        from <= to <= cs@.len(),
    ensures
        out@ == cs@.subrange(from as int, to as int),
{
    let mut out = String::new();
    let mut i: usize = from;
    while i < to
        invariant
            from <= i <= to <= cs@.len(),
            out@ == cs@.subrange(from as int, i as int),
        decreases to - i,
    {
        out.push(cs[i]);
        i = i + 1;
        assert(out@ == cs@.subrange(from as int, i as int));
    }
    out
}

/// Whether two strings hold the same characters.
pub fn same(a: &str, b: &str) -> (r: bool)
    ensures
        r == (a@ == b@),
{
    let x = chars_of(a);
    let y = chars_of(b);
    if x.len() != y.len() {
        return false;
    }
    let mut i: usize = 0;
    while i < x.len()
        invariant
            i <= x@.len(),
            x@.len() == y@.len(),
            x@ == a@,
            y@ == b@,
            forall|k: int| 0 <= k < i ==> x@[k] == y@[k],
        decreases x@.len() - i,
    {
        if x[i] != y[i] {
            assert(a@[i as int] != b@[i as int]);
            return false;
        }
        i = i + 1;
    }
    assert(a@ =~= b@);
    true
}

/// Whether an optional string holds exactly these characters.
pub fn is_some_text(o: &Option<String>, t: &str) -> (r: bool)
    ensures
        r == (opt_view(*o) == Some(t@)),
{
    match o {
        Some(s) => same(s.as_str(), t),
        None => false,
    }
}

/// A copy of an optional string.
pub fn clone_opt(o: &Option<String>) -> (r: Option<String>)
    ensures
        r == *o,
{
    match o {
        Some(s) => Some(s.clone()),
        None => None,
    }
}

/// What a result with a message says.
pub open spec fn told<T>(r: Result<T, String>) -> Result<T, Seq<char>> {
    match r {
        Ok(v) => Ok(v),
        Err(e) => Err(e@),
    }
}

/// Two strings, one after the other.
pub fn cat2(a: &str, b: &str) -> (out: String)
    ensures
        out@ == a@ + b@,
{
    let mut out = a.to_owned();
    out.append(b);
    out
}

/// Three strings, one after the other.
pub fn cat3(a: &str, b: &str, c: &str) -> (out: String)
    ensures
        out@ == a@ + b@ + c@,
{
    let mut out = cat2(a, b);
    out.append(c);
    out
}

/// Four strings, one after the other.
pub fn cat4(a: &str, b: &str, c: &str, d: &str) -> (out: String)
    ensures
        out@ == a@ + b@ + c@ + d@,
{
    let mut out = cat3(a, b, c);
    out.append(d);
    out
}

/// Five strings, one after the other.
pub fn cat5(a: &str, b: &str, c: &str, d: &str, e: &str) -> (out: String)
    ensures
        out@ == a@ + b@ + c@ + d@ + e@,
{
    let mut out = cat4(a, b, c, d);
    out.append(e);
    out
}

/// The parts with a separator between them.
pub open spec fn joined(parts: Seq<Seq<char>>, separator: Seq<char>) -> Seq<char>
    decreases parts.len(),
{
    if parts.len() == 0 {
        Seq::empty()
    } else if parts.len() == 1 {
        parts[0]
    } else {
        joined(parts.drop_last(), separator) + separator + parts.last()
    }
}

/// Join strings with a separator between them.
pub fn join(parts: &[&str], separator: &str) -> (out: String)
    ensures
        out@ == joined(str_views(parts@), separator@),
{
    let ghost all = str_views(parts@);
    let mut out = String::new();
    let mut i: usize = 0;
    assert(out@ =~= joined(all.take(0), separator@));
    while i < parts.len()
        invariant
            i <= parts@.len(),
            all == str_views(parts@),
            out@ == joined(all.take(i as int), separator@),
        decreases parts@.len() - i,
    {
        assert(all.take(i + 1).drop_last() =~= all.take(i as int));
        assert(all.take(i + 1).last() == parts@[i as int]@);
        let ghost before = out@;
        if i > 0 {
            out.append(separator);
        }
        out.append(parts[i]);
        assert(i == 0 ==> out@ =~= parts@[0]@);
        i = i + 1;
    }
    assert(all.take(all.len() as int) =~= all);
    out
}

// ── Whitespace ───────────────────────────────────────────────────────────────

/// The Unicode property `White_Space`.
pub open spec fn white(c: char) -> bool {
    let u = c as u32;
    ||| 0x09 <= u <= 0x0d
    ||| u == 0x20
    ||| u == 0x85
    ||| u == 0xa0
    ||| u == 0x1680
    ||| 0x2000 <= u <= 0x200a
    ||| u == 0x2028
    ||| u == 0x2029
    ||| u == 0x202f
    ||| u == 0x205f
    ||| u == 0x3000
}

/// Whether a character is white space.
pub fn is_white(c: char) -> (r: bool)
    ensures
        r == white(c),
{
    let u: u32 = c as u32;
    (0x09 <= u && u <= 0x0d) || u == 0x20 || u == 0x85 || u == 0xa0 || u == 0x1680 || (0x2000 <= u
        && u <= 0x200a) || u == 0x2028 || u == 0x2029 || u == 0x202f || u == 0x205f || u == 0x3000
}

/// `s` without its leading white space.
pub open spec fn trimmed_start(s: Seq<char>) -> Seq<char>
    decreases s.len(),
{
    if s.len() > 0 && white(s[0]) {
        trimmed_start(s.drop_first())
    } else {
        s
    }
}

/// `s` without its trailing white space.
pub open spec fn trimmed_end(s: Seq<char>) -> Seq<char>
    decreases s.len(),
{
    if s.len() > 0 && white(s.last()) {
        trimmed_end(s.drop_last())
    } else {
        s
    }
}

/// `s` without the white space at either end.
pub open spec fn trimmed(s: Seq<char>) -> Seq<char> {
    trimmed_end(trimmed_start(s))
}

/// What trimming leaves is a piece of the text that neither starts nor ends
/// with white space.
pub proof fn lemma_trimmed(s: Seq<char>)
    ensures
        trimmed(s).len() <= s.len(),
        trimmed(s).len() > 0 ==> !white(trimmed(s)[0]) && !white(trimmed(s).last()),
{
    lemma_trimmed_start(s);
    lemma_trimmed_end(trimmed_start(s));
}

proof fn lemma_trimmed_start(s: Seq<char>)
    ensures
        trimmed_start(s).len() <= s.len(),
        trimmed_start(s).len() > 0 ==> !white(trimmed_start(s)[0]),
    decreases s.len(),
{
    if s.len() > 0 && white(s[0]) {
        lemma_trimmed_start(s.drop_first());
    }
}

proof fn lemma_trimmed_end(s: Seq<char>)
    ensures
        trimmed_end(s).len() <= s.len(),
        trimmed_end(s).len() > 0 ==> trimmed_end(s)[0] == s[0] && !white(trimmed_end(s).last()),
    decreases s.len(),
{
    if s.len() > 0 && white(s.last()) {
        lemma_trimmed_end(s.drop_last());
    }
}

/// Trimming twice is trimming once.
pub proof fn trimming_is_idempotent(s: Seq<char>)
    ensures
        trimmed(trimmed(s)) == trimmed(s),
{
    lemma_trimmed(s);
}

/// A string without the white space at either end.
pub fn trim(s: &str) -> (out: String)
    ensures
        out@ == trimmed(s@),
{
    let cs = chars_of(s);
    let mut from: usize = 0;
    assert(cs@.skip(0) == cs@);
    while from < cs.len() && is_white(cs[from])
        invariant
            from <= cs@.len(),
            cs@ == s@,
            trimmed_start(s@) == trimmed_start(cs@.skip(from as int)),
        decreases cs@.len() - from,
    {
        assert(cs@.skip(from as int).drop_first() == cs@.skip(from as int + 1));
        from = from + 1;
    }
    let ghost head = cs@.skip(from as int);
    assert(trimmed_start(s@) == head);
    let mut to: usize = cs.len();
    assert(head == cs@.subrange(from as int, to as int));
    while to > from && is_white(cs[to - 1])
        invariant
            from <= to <= cs@.len(),
            trimmed_end(head) == trimmed_end(cs@.subrange(from as int, to as int)),
        decreases to,
    {
        assert(cs@.subrange(from as int, to as int).drop_last() == cs@.subrange(
            from as int,
            to as int - 1,
        ));
        to = to - 1;
    }
    string_of(&cs, from, to)
}

/// The words of `s`: its longest runs of characters that are not white space.
pub open spec fn words_of(s: Seq<char>) -> Seq<Seq<char>>
    decreases s.len(),
{
    let n = word_len(s) as int;
    if s.len() == 0 {
        Seq::empty()
    } else if n == 0 {
        words_of(s.drop_first())
    } else if n >= s.len() {
        seq![s]
    } else {
        seq![s.take(n)] + words_of(s.skip(n))
    }
}

/// How many characters stand before the first white space.
pub open spec fn word_len(s: Seq<char>) -> nat
    decreases s.len(),
{
    if s.len() == 0 || white(s[0]) {
        0
    } else {
        1 + word_len(s.drop_first())
    }
}

proof fn lemma_word_len(s: Seq<char>, n: int)
    requires
        0 <= n <= s.len(),
        forall|k: int| 0 <= k < n ==> !white(#[trigger] s[k]),
        n == s.len() || white(s[n]),
    ensures
        word_len(s) == n,
    decreases n,
{
    if n > 0 {
        assert(!white(s[0]));
        assert(forall|k: int| 0 <= k < n - 1 ==> s.drop_first()[k] == s[k + 1]);
        lemma_word_len(s.drop_first(), n - 1);
    }
}

/// The words of a string.
pub fn words(s: &str) -> (out: Vec<String>)
    ensures
        views(out@) == words_of(s@),
{
    let cs = chars_of(s);
    let mut out: Vec<String> = Vec::new();
    let mut i: usize = 0;
    assert(cs@.skip(0) == cs@);
    assert(views(out@) =~= Seq::empty());
    while i < cs.len()
        invariant
            i <= cs@.len(),
            cs@ == s@,
            words_of(s@) == views(out@) + words_of(cs@.skip(i as int)),
        decreases cs@.len() - i,
    {
        let ghost rest = cs@.skip(i as int);
        if is_white(cs[i]) {
            assert(rest.drop_first() == cs@.skip(i as int + 1));
            i = i + 1;
        } else {
            let start: usize = i;
            while i < cs.len() && !is_white(cs[i])
                invariant
                    start <= i <= cs@.len(),
                    forall|k: int| start <= k < i ==> !white(#[trigger] cs@[k]),
                decreases cs@.len() - i,
            {
                i = i + 1;
            }
            proof {
                assert(forall|k: int| 0 <= k < i - start ==> rest[k] == cs@[start + k]);
                lemma_word_len(rest, i - start);
                assert(rest.take(i - start) == cs@.subrange(start as int, i as int));
                assert(rest.skip(i - start) == cs@.skip(i as int));
                assert(word_len(rest) > 0);
                if i == cs@.len() {
                    assert(rest == rest.take(i - start));
                    assert(cs@.skip(i as int) == Seq::<char>::empty());
                    assert(seq![rest] + Seq::<Seq<char>>::empty() == seq![rest]);
                }
            }
            let word = string_of(&cs, start, i);
            let ghost before = out@;
            out.push(word);
            assert(views(out@) == views(before).push(word@));
            assert(views(before) + (seq![word@] + words_of(cs@.skip(i as int))) == views(out@)
                + words_of(cs@.skip(i as int)));
        }
    }
    assert(cs@.skip(i as int) == Seq::<char>::empty());
    assert(views(out@) + Seq::<Seq<char>>::empty() == views(out@));
    out
}

// ── Splitting at a character ─────────────────────────────────────────────────

/// The first position of `c`, or the length where there is none.
pub open spec fn first_at(s: Seq<char>, c: char) -> nat
    decreases s.len(),
{
    if s.len() == 0 || s[0] == c {
        0
    } else {
        1 + first_at(s.drop_first(), c)
    }
}

/// The first position of a character is where it stands first.
pub proof fn lemma_first_at(s: Seq<char>, c: char)
    ensures
        first_at(s, c) <= s.len(),
        forall|k: int| 0 <= k < first_at(s, c) ==> s[k] != c,
        first_at(s, c) < s.len() ==> s[first_at(s, c) as int] == c,
    decreases s.len(),
{
    if s.len() > 0 && s[0] != c {
        lemma_first_at(s.drop_first(), c);
        assert(forall|k: int| 1 <= k < s.len() ==> s[k] == s.drop_first()[k - 1]);
    }
}

/// A position before which the character does not stand is the first one.
pub proof fn lemma_first_at_is(s: Seq<char>, c: char, n: int)
    requires
        0 <= n <= s.len(),
        forall|k: int| 0 <= k < n ==> s[k] != c,
        n == s.len() || s[n] == c,
    ensures
        first_at(s, c) == n,
{
    lemma_first_at(s, c);
}

/// The position of the first `c` in a list of characters from `from` on.
pub fn index_of(cs: &[char], from: usize, c: char) -> (n: usize)
    requires
        from <= cs@.len(),
    ensures
        from <= n <= cs@.len(),
        n == from + first_at(cs@.skip(from as int), c),
        n < cs@.len() ==> cs@[n as int] == c,
{
    let mut n: usize = from;
    while n < cs.len() && cs[n] != c
        invariant
            from <= n <= cs@.len(),
            forall|k: int| from <= k < n ==> cs@[k] != c,
        decreases cs@.len() - n,
    {
        n = n + 1;
    }
    proof {
        lemma_first_at_is(cs@.skip(from as int), c, n - from);
    }
    n
}

/// The pieces between the occurrences of `sep`, empty ones included.
pub open spec fn pieces(s: Seq<char>, sep: char) -> Seq<Seq<char>>
    decreases s.len(),
{
    let i = first_at(s, sep) as int;
    if i >= s.len() {
        seq![s]
    } else {
        seq![s.take(i)] + pieces(s.skip(i + 1), sep)
    }
}

/// There is always at least one piece, and no piece holds the separator.
pub proof fn lemma_pieces(s: Seq<char>, sep: char)
    ensures
        pieces(s, sep).len() > 0,
        forall|k: int| 0 <= k < pieces(s, sep).len() ==> !(#[trigger] pieces(s, sep)[k]).contains(sep),
    decreases s.len(),
{
    lemma_first_at(s, sep);
    let i = first_at(s, sep) as int;
    if i < s.len() {
        lemma_pieces(s.skip(i + 1), sep);
        let tail = pieces(s.skip(i + 1), sep);
        assert forall|k: int| 0 <= k < pieces(s, sep).len() implies !(
        #[trigger] pieces(s, sep)[k]).contains(sep) by {
            if k > 0 {
                assert(pieces(s, sep)[k] == tail[k - 1]);
            }
        }
    }
}

/// The pieces of a string between the occurrences of a character.
pub fn split(s: &str, sep: char) -> (out: Vec<String>)
    ensures
        views(out@) == pieces(s@, sep),
        out@.len() > 0,
{
    let cs = chars_of(s);
    let mut out: Vec<String> = Vec::new();
    let mut start: usize = 0;
    assert(cs@.skip(0) == cs@);
    assert(views(out@) =~= Seq::empty());
    loop
        invariant
            start <= cs@.len(),
            cs@ == s@,
            pieces(s@, sep) == views(out@) + pieces(cs@.skip(start as int), sep),
        decreases cs@.len() - start,
    {
        let end: usize = index_of(&cs, start, sep);
        let ghost rest = cs@.skip(start as int);
        let piece = string_of(&cs, start, end);
        let ghost before = out@;
        out.push(piece);
        assert(views(out@) == views(before).push(piece@));
        assert(rest.take(end - start) == cs@.subrange(start as int, end as int));
        if end == cs.len() {
            assert(rest == piece@);
            assert(views(before) + seq![piece@] == views(out@));
            proof {
                lemma_pieces(s@, sep);
            }
            return out;
        }
        assert(rest.skip(end - start + 1) == cs@.skip(end as int + 1));
        assert(views(before) + (seq![piece@] + pieces(cs@.skip(end as int + 1), sep)) == views(out@)
            + pieces(cs@.skip(end as int + 1), sep));
        start = end + 1;
    }
}

/// The part before and the part after the first `sep`, where there is one.
pub open spec fn parted(s: Seq<char>, sep: char) -> Option<(Seq<char>, Seq<char>)> {
    let i = first_at(s, sep) as int;
    if i < s.len() {
        Some((s.take(i), s.skip(i + 1)))
    } else {
        None
    }
}

/// The views of an optional pair of strings.
pub open spec fn opt_pair_view(o: Option<(String, String)>) -> Option<(Seq<char>, Seq<char>)> {
    match o {
        Some((a, b)) => Some((a@, b@)),
        None => None,
    }
}

/// Split a string once, at the first occurrence of a character.
pub fn split_once(s: &str, sep: char) -> (out: Option<(String, String)>)
    ensures
        opt_pair_view(out) == parted(s@, sep),
{
    let cs = chars_of(s);
    let i: usize = index_of(&cs, 0, sep);
    assert(cs@.skip(0) == cs@);
    if i < cs.len() {
        let a = string_of(&cs, 0, i);
        let b = string_of(&cs, i + 1, cs.len());
        assert(a@ == s@.take(i as int));
        assert(b@ == s@.skip(i as int + 1));
        Some((a, b))
    } else {
        None
    }
}

/// The first `n` pieces at most, the last of which holds everything that is left.
pub open spec fn pieces_up_to(s: Seq<char>, n: nat, sep: char) -> Seq<Seq<char>>
    decreases n,
{
    if n == 0 {
        Seq::empty()
    } else if n == 1 {
        seq![s]
    } else {
        match parted(s, sep) {
            None => seq![s],
            Some((a, b)) => seq![a] + pieces_up_to(b, (n - 1) as nat, sep),
        }
    }
}

/// Split a string at a character into `n` pieces at most.
pub fn splitn(s: &str, n: usize, sep: char) -> (out: Vec<String>)
    ensures
        views(out@) == pieces_up_to(s@, n as nat, sep),
        out@.len() <= n,
        n > 0 ==> out@.len() > 0,
{
    let mut out: Vec<String> = Vec::new();
    if n == 0 {
        assert(views(out@) =~= Seq::empty());
        return out;
    }
    let cs = chars_of(s);
    let mut start: usize = 0;
    let mut left: usize = n;
    assert(cs@.skip(0) == cs@);
    assert(views(out@) =~= Seq::empty());
    while left > 1
        invariant
            1 <= left <= n,
            out@.len() == n - left,
            start <= cs@.len(),
            cs@ == s@,
            pieces_up_to(s@, n as nat, sep) == views(out@) + pieces_up_to(
                cs@.skip(start as int),
                left as nat,
                sep,
            ),
        decreases left,
    {
        let end: usize = index_of(&cs, start, sep);
        let ghost rest = cs@.skip(start as int);
        let ghost before = out@;
        let piece = string_of(&cs, start, end);
        assert(rest.take(end - start) == piece@);
        out.push(piece);
        assert(views(out@) == views(before).push(piece@));
        if end == cs.len() {
            assert(rest == piece@);
            assert(views(before) + seq![piece@] == views(out@));
            return out;
        }
        assert(rest.skip(end - start + 1) == cs@.skip(end as int + 1));
        assert(views(before) + (seq![piece@] + pieces_up_to(
            cs@.skip(end as int + 1),
            (left - 1) as nat,
            sep,
        )) == views(out@) + pieces_up_to(cs@.skip(end as int + 1), (left - 1) as nat, sep));
        start = end + 1;
        left = left - 1;
    }
    let ghost before = out@;
    let last = string_of(&cs, start, cs.len());
    assert(last@ == cs@.skip(start as int));
    out.push(last);
    assert(views(out@) == views(before).push(last@));
    assert(views(before) + seq![last@] == views(out@));
    out
}

// ── Lines ────────────────────────────────────────────────────────────────────

/// `s` without one carriage return at its end.
pub open spec fn without_cr(s: Seq<char>) -> Seq<char> {
    if s.len() > 0 && s.last() == '\r' {
        s.drop_last()
    } else {
        s
    }
}

/// The lines of `s`: what each line feed ends, without it and without a carriage
/// return before it; and what follows the last line feed, if anything does.
pub open spec fn lines_of(s: Seq<char>) -> Seq<Seq<char>>
    decreases s.len(),
{
    let i = first_at(s, '\n') as int;
    if s.len() == 0 {
        Seq::empty()
    } else if i >= s.len() {
        seq![s]
    } else {
        seq![without_cr(s.take(i))] + lines_of(s.skip(i + 1))
    }
}

/// The lines of a string.
pub fn lines(s: &str) -> (out: Vec<String>)
    ensures
        views(out@) == lines_of(s@),
{
    let cs = chars_of(s);
    let mut out: Vec<String> = Vec::new();
    let mut start: usize = 0;
    assert(cs@.skip(0) == cs@);
    assert(views(out@) =~= Seq::empty());
    while start < cs.len()
        invariant
            start <= cs@.len(),
            cs@ == s@,
            lines_of(s@) == views(out@) + lines_of(cs@.skip(start as int)),
        decreases cs@.len() - start,
    {
        let end: usize = index_of(&cs, start, '\n');
        let ghost rest = cs@.skip(start as int);
        let ghost before = out@;
        let ghost raw = cs@.subrange(start as int, end as int);
        assert(rest.take(end - start) == raw);
        if end == cs.len() {
            let line = string_of(&cs, start, end);
            out.push(line);
            assert(views(out@) == views(before).push(line@));
            assert(rest == line@);
            assert(views(before) + seq![line@] == views(out@));
            return out;
        }
        let stop: usize = if end > start && cs[end - 1] == '\r' {
            end - 1
        } else {
            end
        };
        let line = string_of(&cs, start, stop);
        assert(line@ == without_cr(raw));
        out.push(line);
        assert(views(out@) == views(before).push(line@));
        assert(rest.skip(end - start + 1) == cs@.skip(end as int + 1));
        assert(views(before) + (seq![line@] + lines_of(cs@.skip(end as int + 1))) == views(out@)
            + lines_of(cs@.skip(end as int + 1)));
        start = end + 1;
    }
    assert(cs@.skip(start as int) == Seq::<char>::empty());
    assert(views(out@) + Seq::<Seq<char>>::empty() == views(out@));
    out
}

// ── Searching ────────────────────────────────────────────────────────────────

/// Whether `s` starts with `p`.
pub open spec fn starts(s: Seq<char>, p: Seq<char>) -> bool {
    p.len() <= s.len() && s.take(p.len() as int) == p
}

/// Whether `s` ends with `p`.
pub open spec fn ends(s: Seq<char>, p: Seq<char>) -> bool {
    p.len() <= s.len() && s.skip(s.len() - p.len()) == p
}

/// Whether `p` stands in `s` at position `i`.
pub open spec fn occurs_at(s: Seq<char>, p: Seq<char>, i: int) -> bool {
    0 <= i && i + p.len() <= s.len() && s.subrange(i, i + p.len()) == p
}

/// Whether `p` stands in `s` anywhere.
pub open spec fn holds(s: Seq<char>, p: Seq<char>) -> bool {
    exists|i: int| occurs_at(s, p, i)
}

/// The first position at which `p` stands in `s`.
pub open spec fn first_found(s: Seq<char>, p: Seq<char>) -> Option<int>
    decreases s.len(),
{
    if starts(s, p) {
        Some(0int)
    } else if s.len() == 0 {
        None
    } else {
        match first_found(s.drop_first(), p) {
            Some(i) => Some(i + 1),
            None => None,
        }
    }
}

/// What `first_found` gives is the least position at which `p` stands.
pub proof fn lemma_first_found(s: Seq<char>, p: Seq<char>)
    ensures
        match first_found(s, p) {
            Some(n) => occurs_at(s, p, n) && forall|k: int| 0 <= k < n ==> !occurs_at(s, p, k),
            None => forall|k: int| !occurs_at(s, p, k),
        },
        first_found(s, p) is Some <==> holds(s, p),
    decreases s.len(),
{
    if starts(s, p) {
        assert(s.subrange(0, p.len() as int) == s.take(p.len() as int));
        assert(occurs_at(s, p, 0));
    } else {
        assert(!occurs_at(s, p, 0)) by {
            if occurs_at(s, p, 0) {
                assert(s.subrange(0, p.len() as int) == s.take(p.len() as int));
            }
        }
        if s.len() > 0 {
            let t = s.drop_first();
            lemma_first_found(t, p);
            assert forall|k: int| 1 <= k implies occurs_at(s, p, k) == occurs_at(t, p, k - 1) by {
                if k + p.len() <= s.len() {
                    assert(s.subrange(k, k + p.len()) == t.subrange(k - 1, k - 1 + p.len()));
                }
            }
            match first_found(t, p) {
                Some(n) => {
                    assert(occurs_at(t, p, n));
                    assert(occurs_at(s, p, n + 1));
                    assert forall|k: int| 0 <= k < n + 1 implies !occurs_at(s, p, k) by {
                        if k > 0 {
                            assert(!occurs_at(t, p, k - 1));
                        }
                    }
                },
                None => {
                    assert forall|k: int| !occurs_at(s, p, k) by {
                        if k > 0 {
                            assert(!occurs_at(t, p, k - 1));
                        }
                    }
                },
            }
        }
    }
}

/// The least position at which `p` stands is what `first_found` gives.
pub proof fn lemma_first_found_is(s: Seq<char>, p: Seq<char>, n: int)
    requires
        occurs_at(s, p, n),
        forall|k: int| 0 <= k < n ==> !occurs_at(s, p, k),
    ensures
        first_found(s, p) == Some(n),
{
    lemma_first_found(s, p);
    let m = first_found(s, p)->0;
    if m < n {
        assert(!occurs_at(s, p, m));
    }
}

/// Whether `ps` stands in `cs` at position `at`.
pub fn matches_at(cs: &[char], at: usize, ps: &[char]) -> (r: bool)
    requires
        at <= cs@.len(),
    ensures
        r == occurs_at(cs@, ps@, at as int),
{
    if ps.len() > cs.len() - at {
        return false;
    }
    let mut j: usize = 0;
    let n: usize = cs.len();
    while j < ps.len()
        invariant
            j <= ps@.len(),
            n == cs@.len(),
            at + ps@.len() <= n,
            forall|k: int| 0 <= k < j ==> cs@[at + k] == ps@[k],
        decreases ps@.len() - j,
    {
        if cs[at + j] != ps[j] {
            assert(cs@.subrange(at as int, at + ps@.len())[j as int] != ps@[j as int]);
            return false;
        }
        j = j + 1;
    }
    assert(cs@.subrange(at as int, at + ps@.len()) == ps@);
    true
}

/// The first position at which one string stands in another.
pub fn find(s: &str, p: &str) -> (out: Option<usize>)
    ensures
        match out {
            Some(n) => first_found(s@, p@) == Some(n as int) && n + p@.len() <= s@.len(),
            None => first_found(s@, p@) is None,
        },
{
    let cs = chars_of(s);
    let ps = chars_of(p);
    let mut i: usize = 0;
    while i < cs.len()
        invariant
            i <= cs@.len(),
            cs@ == s@,
            ps@ == p@,
            forall|k: int| 0 <= k < i ==> !occurs_at(s@, p@, k),
        decreases cs@.len() - i,
    {
        if matches_at(&cs, i, &ps) {
            proof {
                lemma_first_found_is(s@, p@, i as int);
            }
            return Some(i);
        }
        i = i + 1;
    }
    if matches_at(&cs, i, &ps) {
        proof {
            lemma_first_found_is(s@, p@, i as int);
        }
        return Some(i);
    }
    proof {
        lemma_first_found(s@, p@);
        if first_found(s@, p@) is Some {
            assert(!occurs_at(s@, p@, first_found(s@, p@)->0));
        }
    }
    None
}

/// Whether one string stands in another.
pub fn contains(s: &str, p: &str) -> (r: bool)
    ensures
        r == holds(s@, p@),
{
    proof {
        lemma_first_found(s@, p@);
    }
    find(s, p).is_some()
}

/// Whether a string starts with another.
pub fn starts_with(s: &str, p: &str) -> (r: bool)
    ensures
        r == starts(s@, p@),
{
    let cs = chars_of(s);
    let ps = chars_of(p);
    if ps.len() > cs.len() {
        return false;
    }
    assert(s@.subrange(0, p@.len() as int) == s@.take(p@.len() as int));
    matches_at(&cs, 0, &ps)
}

/// Whether a string ends with another.
pub fn ends_with(s: &str, p: &str) -> (r: bool)
    ensures
        r == ends(s@, p@),
{
    let cs = chars_of(s);
    let ps = chars_of(p);
    if ps.len() > cs.len() {
        return false;
    }
    assert(s@.subrange(s@.len() - p@.len(), s@.len() as int) == s@.skip(s@.len() - p@.len()));
    matches_at(&cs, cs.len() - ps.len(), &ps)
}

/// The part before and the part after the first `p`, where it stands in `s`.
pub open spec fn parted_at(s: Seq<char>, p: Seq<char>) -> Option<(Seq<char>, Seq<char>)> {
    match first_found(s, p) {
        Some(i) => Some((s.take(i), s.skip(i + p.len()))),
        None => None,
    }
}

/// Split a string once, at the first occurrence of another.
pub fn split_once_at(s: &str, p: &str) -> (out: Option<(String, String)>)
    ensures
        opt_pair_view(out) == parted_at(s@, p@),
{
    let cs = chars_of(s);
    let ps = chars_of(p);
    let n: usize = cs.len();
    match find(s, p) {
        Some(i) => {
            let end: usize = i + ps.len();
            let a = string_of(&cs, 0, i);
            let b = string_of(&cs, end, n);
            assert(a@ =~= s@.take(i as int));
            assert(b@ =~= s@.skip(end as int));
            Some((a, b))
        },
        None => None,
    }
}

/// The last position at which `p` stands in `s`.
pub open spec fn last_found(s: Seq<char>, p: Seq<char>) -> Option<int>
    decreases s.len(),
{
    if ends(s, p) {
        Some(s.len() - p.len())
    } else if s.len() == 0 {
        None
    } else {
        last_found(s.drop_last(), p)
    }
}

/// The last position at which one string stands in another.
pub fn rfind(s: &str, p: &str) -> (out: Option<usize>)
    ensures
        match out {
            Some(n) => last_found(s@, p@) == Some(n as int) && n + p@.len() <= s@.len(),
            None => last_found(s@, p@) is None,
        },
{
    let cs = chars_of(s);
    let ps = chars_of(p);
    let mut len: usize = cs.len();
    assert(cs@.take(len as int) == cs@);
    loop
        invariant
            len <= cs@.len(),
            cs@ == s@,
            ps@ == p@,
            last_found(s@, p@) == last_found(cs@.take(len as int), p@),
        decreases len,
    {
        let ghost head = cs@.take(len as int);
        if ps.len() > len {
            assert(!ends(head, p@));
        } else {
            assert(cs@.subrange(len - p@.len(), len as int) == head.skip(len - p@.len()));
            if matches_at(&cs, len - ps.len(), &ps) {
                return Some(len - ps.len());
            }
        }
        if len == 0 {
            return None;
        }
        assert(head.drop_last() == cs@.take(len as int - 1));
        len = len - 1;
    }
}

/// `s` without the prefix `p`, where it has it.
pub open spec fn after_prefix(s: Seq<char>, p: Seq<char>) -> Option<Seq<char>> {
    if starts(s, p) {
        Some(s.skip(p.len() as int))
    } else {
        None
    }
}

/// A string without a prefix, where it has it.
pub fn strip_prefix(s: &str, p: &str) -> (out: Option<String>)
    ensures
        opt_view(out) == after_prefix(s@, p@),
{
    if starts_with(s, p) {
        let cs = chars_of(s);
        let ps = chars_of(p);
        let rest = string_of(&cs, ps.len(), cs.len());
        assert(rest@ == s@.skip(p@.len() as int));
        Some(rest)
    } else {
        None
    }
}

/// The characters of a string from position `from` up to `to`.
pub fn piece(s: &str, from: usize, to: usize) -> (out: String)
    requires
        from <= to <= s@.len(),
    ensures
        out@ == s@.subrange(from as int, to as int),
{
    s.substring_char(from, to).to_owned()
}

/// The characters of a string from position `from` on.
pub fn rest(s: &str, from: usize) -> (out: String)
    requires
        from <= s@.len(),
    ensures
        out@ == s@.skip(from as int),
{
    let cs = chars_of(s);
    let out = string_of(&cs, from, cs.len());
    assert(out@ == s@.skip(from as int));
    out
}

/// `s` with every `a` replaced by `b`.
pub open spec fn swapped(s: Seq<char>, a: char, b: char) -> Seq<char> {
    s.map_values(
        |c: char|
            if c == a {
                b
            } else {
                c
            },
    )
}

/// A string with every occurrence of one character replaced by another.
pub fn replace_char(s: &str, a: char, b: char) -> (out: String)
    ensures
        out@ == swapped(s@, a, b),
{
    let mut out = String::new();
    for c in it: s.chars()
        invariant
            out@ == swapped(s@.take(it.index() as int), a, b),
            it.seq() == s@,
    {
        let ghost k = it.index() as int;
        out.push(if c == a { b } else { c });
        assert(s@.take(k + 1) == s@.take(k).push(s@[k]));
        assert(swapped(s@.take(k + 1), a, b) == out@);
    }
    assert(s@.take(s@.len() as int) == s@);
    out
}

// ── Order ────────────────────────────────────────────────────────────────────

/// The lexicographic order of two texts, by the code points of their characters.
pub open spec fn before(a: Seq<char>, b: Seq<char>) -> bool
    decreases a.len(),
{
    if b.len() == 0 {
        false
    } else if a.len() == 0 {
        true
    } else if a[0] == b[0] {
        before(a.drop_first(), b.drop_first())
    } else {
        (a[0] as u32) < (b[0] as u32)
    }
}

/// No text stands before itself.
pub proof fn order_is_irreflexive(a: Seq<char>)
    ensures
        !before(a, a),
    decreases a.len(),
{
    if a.len() > 0 {
        order_is_irreflexive(a.drop_first());
    }
}

/// The order of texts is transitive.
pub proof fn order_is_transitive(a: Seq<char>, b: Seq<char>, c: Seq<char>)
    requires
        before(a, b),
        before(b, c),
    ensures
        before(a, c),
    decreases a.len(),
{
    if a.len() > 0 && a[0] == b[0] && b[0] == c[0] {
        order_is_transitive(a.drop_first(), b.drop_first(), c.drop_first());
    }
}

/// Of two different texts one stands before the other.
pub proof fn order_is_total(a: Seq<char>, b: Seq<char>)
    ensures
        a == b || before(a, b) || before(b, a),
    decreases a.len(),
{
    if a.len() == 0 {
        if b.len() == 0 {
            assert(a =~= b);
        }
    } else if b.len() > 0 && a[0] == b[0] {
        order_is_total(a.drop_first(), b.drop_first());
        if a.drop_first() == b.drop_first() {
            assert(a.drop_first().len() == a.len() - 1);
            assert(b.drop_first().len() == b.len() - 1);
            assert forall|k: int| 0 <= k < a.len() implies a[k] == b[k] by {
                if k > 0 {
                    assert(a[k] == a.drop_first()[k - 1]);
                    assert(b[k] == b.drop_first()[k - 1]);
                }
            }
            assert(a =~= b);
        }
    } else if b.len() > 0 {
        vstd::utf8::char_u32_cast(a[0], a[0] as u32);
        vstd::utf8::char_u32_cast(b[0], b[0] as u32);
    }
}

/// Of two texts at most one stands before the other.
pub proof fn order_is_asymmetric(a: Seq<char>, b: Seq<char>)
    requires
        before(a, b),
    ensures
        !before(b, a),
        a != b,
{
    order_is_irreflexive(a);
    if before(b, a) {
        order_is_transitive(a, b, a);
    }
}

/// Whether one string stands before another.
pub fn less(a: &str, b: &str) -> (r: bool)
    ensures
        r == before(a@, b@),
{
    let x = chars_of(a);
    let y = chars_of(b);
    let mut i: usize = 0;
    assert(x@.skip(0) == x@);
    assert(y@.skip(0) == y@);
    while i < x.len() && i < y.len()
        invariant
            i <= x@.len(),
            i <= y@.len(),
            x@ == a@,
            y@ == b@,
            before(a@, b@) == before(x@.skip(i as int), y@.skip(i as int)),
        decreases x@.len() - i,
    {
        if x[i] != y[i] {
            return (x[i] as u32) < (y[i] as u32);
        }
        assert(x@.skip(i as int).drop_first() == x@.skip(i as int + 1));
        assert(y@.skip(i as int).drop_first() == y@.skip(i as int + 1));
        i = i + 1;
    }
    i < y.len()
}

// ── Decimal numbers ──────────────────────────────────────────────────────────

/// Whether a character is one of `0` to `9`.
pub open spec fn digit(c: char) -> bool {
    0x30 <= c as u32 <= 0x39
}

/// Whether every character is a digit.
pub open spec fn digits(s: Seq<char>) -> bool {
    forall|k: int| 0 <= k < s.len() ==> digit(#[trigger] s[k])
}

/// The number that a run of digits writes, most significant first.
pub open spec fn number(s: Seq<char>) -> nat
    decreases s.len(),
{
    if s.len() == 0 {
        0
    } else {
        (number(s.drop_last()) * 10 + (s.last() as u32 - 0x30)) as nat
    }
}

/// What an optional plus sign and digits write, where it is at most `max`.
pub open spec fn parsed(s: Seq<char>, max: nat) -> Option<nat> {
    let d = if s.len() > 0 && s[0] == '+' {
        s.drop_first()
    } else {
        s
    };
    if d.len() > 0 && digits(d) && number(d) <= max {
        Some(number(d))
    } else {
        None
    }
}

proof fn lemma_number_grows(s: Seq<char>, i: int)
    requires
        0 <= i <= s.len(),
        digits(s),
    ensures
        number(s.take(i)) <= number(s),
    decreases s.len() - i,
{
    if i < s.len() {
        lemma_number_grows(s, i + 1);
        assert(s.take(i + 1).drop_last() == s.take(i));
        assert(digit(s[i]));
    } else {
        assert(s.take(i) == s);
    }
}

/// Read an unsigned number that is at most `max`.
pub fn parse_up_to(s: &str, max: u64) -> (out: Option<u64>)
    ensures
        match out {
            Some(n) => parsed(s@, max as nat) == Some(n as nat),
            None => parsed(s@, max as nat) is None,
        },
{
    let cs = chars_of(s);
    let from: usize = if cs.len() > 0 && cs[0] == '+' {
        1
    } else {
        0
    };
    let ghost d = if s@.len() > 0 && s@[0] == '+' {
        s@.drop_first()
    } else {
        s@
    };
    assert(d == cs@.skip(from as int));
    if from == cs.len() {
        return None;
    }
    let mut i: usize = from;
    let mut n: u64 = 0;
    assert(d.take(0) == Seq::<char>::empty());
    while i < cs.len()
        invariant
            from <= i <= cs@.len(),
            d == cs@.skip(from as int),
            d.len() > 0,
            parsed(s@, max as nat) == (if d.len() > 0 && digits(d) && number(d) <= max as nat {
                Some(number(d))
            } else {
                None
            }),
            digits(d.take(i - from)),
            n == number(d.take(i - from)),
            n <= max,
        decreases cs@.len() - i,
    {
        let ghost k = i - from;
        let u: u32 = cs[i] as u32;
        assert(d[k] == cs@[i as int]);
        if u < 0x30 || u > 0x39 {
            assert(!digit(d[k]));
            return None;
        }
        assert(d.take(k + 1).drop_last() == d.take(k));
        assert(d.take(k + 1).last() == d[k]);
        let v: u64 = (u - 0x30) as u64;
        if v > max || n > (max - v) / 10 {
            proof {
                assert(number(d.take(k + 1)) == n * 10 + v);
                assert(n * 10 + v > max);
                if digits(d) {
                    lemma_number_grows(d, k + 1);
                }
            }
            return None;
        }
        n = n * 10 + v;
        i = i + 1;
        assert forall|j: int| 0 <= j < k + 1 implies digit(#[trigger] d.take(k + 1)[j]) by {
            if j < k {
                assert(d.take(k)[j] == d[j]);
            }
        }
    }
    assert(d.take(d.len() as int) == d);
    Some(n)
}

/// Read a `u8`.
pub fn parse_u8(s: &str) -> (out: Option<u8>)
    ensures
        match out {
            Some(n) => parsed(s@, u8::MAX as nat) == Some(n as nat),
            None => parsed(s@, u8::MAX as nat) is None,
        },
{
    match parse_up_to(s, 0xff) {
        Some(n) => Some(n as u8),
        None => None,
    }
}

/// Read a `u16`.
pub fn parse_u16(s: &str) -> (out: Option<u16>)
    ensures
        match out {
            Some(n) => parsed(s@, u16::MAX as nat) == Some(n as nat),
            None => parsed(s@, u16::MAX as nat) is None,
        },
{
    match parse_up_to(s, 0xffff) {
        Some(n) => Some(n as u16),
        None => None,
    }
}

/// Read a `u32`.
pub fn parse_u32(s: &str) -> (out: Option<u32>)
    ensures
        match out {
            Some(n) => parsed(s@, u32::MAX as nat) == Some(n as nat),
            None => parsed(s@, u32::MAX as nat) is None,
        },
{
    match parse_up_to(s, 0xffff_ffff) {
        Some(n) => Some(n as u32),
        None => None,
    }
}

/// The digits that write `n`, without leading zeros.
pub open spec fn decimal(n: nat) -> Seq<char>
    decreases n,
{
    if n < 10 {
        seq![digit_of(n)]
    } else {
        decimal(n / 10).push(digit_of(n % 10))
    }
}

/// The character of a digit.
pub open spec fn digit_of(n: nat) -> char {
    (0x30 + n) as char
}

/// Write a number in decimal.
pub fn render(n: u64) -> (out: String)
    ensures
        out@ == decimal(n as nat),
    decreases n,
{
    let mut out = if n < 10 {
        String::new()
    } else {
        render(n / 10)
    };
    let d: u8 = (n % 10) as u8;
    out.push((0x30u8 + d) as char);
    assert(n < 10 ==> out@ == seq![digit_of(n as nat)]);
    out
}

/// A written number reads back as itself.
pub proof fn written_numbers_read_back(n: nat, max: nat)
    requires
        n <= max,
    ensures
        parsed(decimal(n), max) == Some(n),
{
    lemma_decimal(n);
    let s = decimal(n);
    assert(digit(s[0]));
}

proof fn lemma_decimal(n: nat)
    ensures
        decimal(n).len() > 0,
        digits(decimal(n)),
        number(decimal(n)) == n,
    decreases n,
{
    if n < 10 {
        assert(decimal(n).drop_last() == Seq::<char>::empty());
        assert(number(Seq::<char>::empty()) == 0);
    } else {
        lemma_decimal(n / 10);
        assert(decimal(n).drop_last() == decimal(n / 10));
    }
}

// ── Letters and digits ───────────────────────────────────────────────────────

/// Whether a character is a letter or a digit, as Unicode has it.
pub uninterp spec fn alphanumeric(c: char) -> bool;

/// An ASCII letter or digit.
pub open spec fn ascii_alphanumeric(c: char) -> bool {
    let u = c as u32;
    0x30 <= u <= 0x39 || 0x41 <= u <= 0x5a || 0x61 <= u <= 0x7a
}

/// `char::is_alphanumeric`: whether a character is alphabetic or numeric by
/// Unicode. Of the ASCII characters these are the letters and the digits.
#[verifier::external_body]
pub(crate) fn is_alphanumeric(c: char) -> (r: bool)
    ensures
        r == alphanumeric(c),
        (c as u32) < 0x80 ==> r == ascii_alphanumeric(c),
{
    c.is_alphanumeric()
}

// ── Quoted text ──────────────────────────────────────────────────────────────

/// What the `Debug` of `str` writes: the text between double quotes, with special
/// characters escaped.
pub uninterp spec fn debug_text(s: Seq<char>) -> Seq<char>;

/// The `Debug` of `str`, through `format!`: the text in quotes, escaped.
#[verifier::external_body]
pub(crate) fn debug_str(s: &str) -> (out: String)
    ensures
        out@ == debug_text(s@),
{
    format!("{:?}", s)
}

/// What stands between the brackets of a quoted list.
pub open spec fn debug_items(items: Seq<Seq<char>>) -> Seq<char>
    decreases items.len(),
{
    if items.len() == 0 {
        Seq::empty()
    } else if items.len() == 1 {
        debug_text(items[0])
    } else {
        debug_items(items.drop_last()) + ", "@ + debug_text(items.last())
    }
}

/// A list of quoted texts: `["a", "b"]`.
pub open spec fn debug_list_text(items: Seq<Seq<char>>) -> Seq<char> {
    "["@ + debug_items(items) + "]"@
}

/// Write a list of quoted texts.
pub fn debug_list(items: &[&str]) -> (out: String)
    ensures
        out@ == debug_list_text(str_views(items@)),
{
    let ghost iv = str_views(items@);
    let mut inner = String::new();
    let mut i: usize = 0;
    assert(iv.take(0) =~= Seq::empty());
    while i < items.len()
        invariant
            i <= items@.len(),
            iv == str_views(items@),
            inner@ == debug_items(iv.take(i as int)),
        decreases items@.len() - i,
    {
        assert(iv.take(i as int + 1).drop_last() =~= iv.take(i as int));
        assert(iv.take(i as int + 1).last() == items@[i as int]@);
        let item = debug_str(items[i]);
        if i > 0 {
            inner.append(", ");
        }
        let ghost before = inner@;
        inner.append(item.as_str());
        assert(i == 0 ==> inner@ =~= item@);
        i = i + 1;
    }
    assert(iv.take(iv.len() as int) =~= iv);
    cat3("[", inner.as_str(), "]")
}

// ── Laws ─────────────────────────────────────────────────────────────────────

/// In ASCII, white space is the space and the five control characters from tab to
/// carriage return; every character that prints is none.
pub proof fn ascii_white_space(c: char)
    requires
        (c as u32) < 0x80,
    ensures
        white(c) <==> c == ' ' || c == '\t' || c == '\n' || c == '\r' || c as u32 == 0x0b
            || c as u32 == 0x0c,
        0x21 <= c as u32 <= 0x7e ==> !white(c),
{
    vstd::utf8::char_u32_cast(c, c as u32);
}

/// Trimming takes white space off both ends and nothing else: what is left is a
/// piece of the text with only white space before it and after it, it neither
/// starts nor ends with white space, and it is empty only where every character
/// is white space.
pub proof fn trimming_takes_white_space_off_the_ends(s: Seq<char>)
    ensures
        exists|i: int, j: int|
            0 <= i <= j <= s.len() && #[trigger] s.subrange(i, j) == trimmed(s) && (forall|k: int|
                0 <= k < i || j <= k < s.len() ==> white(#[trigger] s[k])),
        trimmed(s).len() > 0 ==> !white(trimmed(s)[0]) && !white(trimmed(s).last()),
        trimmed(s).len() == 0 <==> forall|k: int| 0 <= k < s.len() ==> white(#[trigger] s[k]),
        s.len() > 0 && !white(s[0]) && !white(s.last()) ==> trimmed(s) == s,
{
    lemma_trimmed(s);
    let i = lemma_start_skipped(s);
    let t = trimmed_start(s);
    let j = lemma_end_dropped(t);
    assert(trimmed(s) == s.subrange(i, i + j));
    assert forall|k: int| 0 <= k < i || i + j <= k < s.len() implies white(#[trigger] s[k]) by {
        if k >= i + j {
            assert(t[k - i] == s[k]);
        }
    }
    if trimmed(s).len() > 0 {
        assert(s[i] == trimmed(s)[0]);
    }
}

proof fn lemma_start_skipped(s: Seq<char>) -> (i: int)
    ensures
        0 <= i <= s.len(),
        trimmed_start(s) == s.skip(i),
        forall|k: int| 0 <= k < i ==> white(#[trigger] s[k]),
    decreases s.len(),
{
    if s.len() > 0 && white(s[0]) {
        let r = s.drop_first();
        let i = lemma_start_skipped(r);
        assert(r.skip(i) == s.skip(i + 1));
        assert forall|k: int| 0 <= k < i + 1 implies white(#[trigger] s[k]) by {
            if k > 0 {
                assert(r[k - 1] == s[k]);
            }
        }
        i + 1
    } else {
        assert(s.skip(0) == s);
        0
    }
}

proof fn lemma_end_dropped(s: Seq<char>) -> (j: int)
    ensures
        0 <= j <= s.len(),
        trimmed_end(s) == s.take(j),
        forall|k: int| j <= k < s.len() ==> white(#[trigger] s[k]),
    decreases s.len(),
{
    if s.len() > 0 && white(s.last()) {
        let r = s.drop_last();
        let j = lemma_end_dropped(r);
        assert(r.take(j) == s.take(j));
        assert forall|k: int| j <= k < s.len() implies white(#[trigger] s[k]) by {
            if k < s.len() - 1 {
                assert(r[k] == s[k]);
            }
        }
        j
    } else {
        assert(s.take(s.len() as int) == s);
        s.len() as int
    }
}

/// White space around a text does not change what trimming makes of it.
pub proof fn surrounding_white_space_does_not_matter(a: Seq<char>, s: Seq<char>, b: Seq<char>)
    requires
        forall|k: int| 0 <= k < a.len() ==> white(#[trigger] a[k]),
        forall|k: int| 0 <= k < b.len() ==> white(#[trigger] b[k]),
    ensures
        trimmed(a + s + b) == trimmed(s),
    decreases a.len() + b.len(),
{
    let w = a + s + b;
    if a.len() > 0 {
        let r = a.drop_first();
        assert(w[0] == a[0]);
        assert(w.drop_first() == r + s + b);
        assert forall|k: int| 0 <= k < r.len() implies white(#[trigger] r[k]) by {
            assert(r[k] == a[k + 1]);
        }
        surrounding_white_space_does_not_matter(r, s, b);
    } else if b.len() > 0 {
        let r = b.drop_last();
        assert(w == s + b);
        assert forall|k: int| 0 <= k < r.len() implies white(#[trigger] r[k]) by {
            assert(r[k] == b[k]);
        }
        surrounding_white_space_does_not_matter(a, s, r);
        assert(w.last() == b.last());
        assert(w.drop_last() == a + s + r);
        lemma_trailing_white(w);
    } else {
        assert(w == s);
    }
}

proof fn lemma_trailing_white(s: Seq<char>)
    requires
        s.len() > 0,
        white(s.last()),
    ensures
        trimmed(s) == trimmed(s.drop_last()),
    decreases s.len(),
{
    if white(s[0]) {
        if s.len() > 1 {
            let r = s.drop_first();
            assert(r.last() == s.last());
            lemma_trailing_white(r);
            assert(r.drop_last() == s.drop_last().drop_first());
            assert(s.drop_last()[0] == s[0]);
        } else {
            assert(s.drop_first() == s.drop_last());
        }
    } else {
        assert(s.drop_last()[0] == s[0]);
    }
}

/// Joining the pieces with what separated them gives the text back.
pub proof fn pieces_join_to_the_text(s: Seq<char>, sep: char)
    ensures
        joined(pieces(s, sep), seq![sep]) == s,
    decreases s.len(),
{
    lemma_first_at(s, sep);
    let i = first_at(s, sep) as int;
    if i < s.len() {
        let rest = s.skip(i + 1);
        pieces_join_to_the_text(rest, sep);
        lemma_pieces(rest, sep);
        lemma_joined_front(s.take(i), pieces(rest, sep), seq![sep]);
        assert(s.take(i) + seq![sep] + rest == s);
    }
}

proof fn lemma_joined_front(a: Seq<char>, parts: Seq<Seq<char>>, separator: Seq<char>)
    requires
        parts.len() > 0,
    ensures
        joined(seq![a] + parts, separator) == a + separator + joined(parts, separator),
    decreases parts.len(),
{
    let all = seq![a] + parts;
    assert(all.last() == parts.last());
    if parts.len() == 1 {
        assert(all.drop_last() == seq![a]);
        assert(joined(seq![a], separator) == a);
        assert(parts[0] == parts.last());
    } else {
        assert(all.drop_last() == seq![a] + parts.drop_last());
        lemma_joined_front(a, parts.drop_last(), separator);
        assert(a + separator + joined(parts.drop_last(), separator) + separator + parts.last() == a
            + separator + (joined(parts.drop_last(), separator) + separator + parts.last()));
    }
}

/// Texts that do not hold a character come apart again where it joins them.
pub proof fn joined_texts_come_apart(parts: Seq<Seq<char>>, sep: char)
    requires
        parts.len() > 0,
        forall|k: int| 0 <= k < parts.len() ==> !(#[trigger] parts[k]).contains(sep),
    ensures
        pieces(joined(parts, seq![sep]), sep) == parts,
    decreases parts.len(),
{
    let s = joined(parts, seq![sep]);
    let a = parts[0];
    assert(!a.contains(sep));
    assert forall|k: int| 0 <= k < a.len() implies a[k] != sep by {
        if a[k] == sep {
            assert(a.contains(sep));
        }
    }
    if parts.len() == 1 {
        lemma_first_at_is(s, sep, s.len() as int);
        assert(parts == seq![a]);
    } else {
        let rest = parts.drop_first();
        assert(parts == seq![a] + rest);
        assert forall|k: int| 0 <= k < rest.len() implies !(#[trigger] rest[k]).contains(sep) by {
            assert(rest[k] == parts[k + 1]);
        }
        joined_texts_come_apart(rest, sep);
        lemma_joined_front(a, rest, seq![sep]);
        let tail = joined(rest, seq![sep]);
        assert(s == a + seq![sep] + tail);
        assert(s[a.len() as int] == sep);
        lemma_first_at_is(s, sep, a.len() as int);
        assert(s.take(a.len() as int) == a);
        assert(s.skip(a.len() as int + 1) == tail);
    }
}

/// A text splits at the first occurrence of a character, wherever that stands, and
/// does not split where there is none.
pub proof fn texts_part_at_the_first_separator(a: Seq<char>, sep: char, b: Seq<char>)
    requires
        !a.contains(sep),
    ensures
        parted(a + seq![sep] + b, sep) == Some((a, b)),
        parted(a, sep) is None,
        pieces(a + seq![sep] + b, sep) == seq![a] + pieces(b, sep),
        pieces(a, sep) == seq![a],
{
    let s = a + seq![sep] + b;
    assert forall|k: int| 0 <= k < a.len() implies a[k] != sep by {
        if a[k] == sep {
            assert(a.contains(sep));
        }
    }
    assert(s[a.len() as int] == sep);
    lemma_first_at_is(s, sep, a.len() as int);
    lemma_first_at_is(a, sep, a.len() as int);
    assert(s.take(a.len() as int) == a);
    assert(s.skip(a.len() as int + 1) == b);
}

/// Splitting into at most so many pieces loses nothing: joined again they are the
/// text, and only the last of them may hold the separator, which it does only
/// where there are as many as were allowed.
pub proof fn bounded_splitting_loses_nothing(s: Seq<char>, n: nat, sep: char)
    requires
        n > 0,
    ensures
        1 <= pieces_up_to(s, n, sep).len() <= n,
        joined(pieces_up_to(s, n, sep), seq![sep]) == s,
        forall|k: int|
            0 <= k < pieces_up_to(s, n, sep).len() - 1 ==> !(#[trigger] pieces_up_to(
                s,
                n,
                sep,
            )[k]).contains(sep),
        pieces_up_to(s, n, sep).len() < n ==> !pieces_up_to(s, n, sep).last().contains(sep),
    decreases n,
{
    lemma_first_at(s, sep);
    let i = first_at(s, sep) as int;
    let all = pieces_up_to(s, n, sep);
    if n > 1 && i < s.len() {
        let rest = s.skip(i + 1);
        bounded_splitting_loses_nothing(rest, (n - 1) as nat, sep);
        let tail = pieces_up_to(rest, (n - 1) as nat, sep);
        assert(all == seq![s.take(i)] + tail);
        lemma_joined_front(s.take(i), tail, seq![sep]);
        assert(s.take(i) + seq![sep] + rest == s);
        assert forall|k: int| 0 <= k < all.len() - 1 implies !(#[trigger] all[k]).contains(sep) by {
            if k > 0 {
                assert(all[k] == tail[k - 1]);
            }
        }
        assert(all.last() == tail.last());
    } else {
        assert(all == seq![s]);
        assert(all.last() == s);
    }
}

/// Bounded splitting takes one field off after the other, up to the last one that is
/// allowed, which is everything that is left.
pub proof fn fields_are_split_off_one_by_one(a: Seq<char>, sep: char, b: Seq<char>, n: nat)
    requires
        !a.contains(sep),
    ensures
        n > 1 ==> pieces_up_to(a + seq![sep] + b, n, sep) == seq![a] + pieces_up_to(
            b,
            (n - 1) as nat,
            sep,
        ),
        n > 0 ==> pieces_up_to(a, n, sep) == seq![a],
        pieces_up_to(b, 1, sep) == seq![b],
{
    texts_part_at_the_first_separator(a, sep, b);
}

/// Fields that are joined come apart again where the separator stands in none but the
/// last of them.
pub proof fn joined_fields_come_apart(fields: Seq<Seq<char>>, sep: char)
    requires
        fields.len() > 0,
        forall|k: int| 0 <= k < fields.len() - 1 ==> !(#[trigger] fields[k]).contains(sep),
    ensures
        pieces_up_to(joined(fields, seq![sep]), fields.len(), sep) == fields,
    decreases fields.len(),
{
    if fields.len() > 1 {
        let rest = fields.drop_first();
        assert forall|k: int| 0 <= k < rest.len() - 1 implies !(#[trigger] rest[k]).contains(sep) by {
            assert(rest[k] == fields[k + 1]);
        }
        joined_fields_come_apart(rest, sep);
        assert(fields =~= seq![fields[0]] + rest);
        assert(!fields[0].contains(sep));
        lemma_joined_front(fields[0], rest, seq![sep]);
        fields_are_split_off_one_by_one(
            fields[0],
            sep,
            joined(rest, seq![sep]),
            fields.len(),
        );
    } else {
        assert(fields =~= seq![fields[0]]);
    }
}

/// A line feed ends a line, with or without a carriage return before it; what
/// follows the last one is a line where it is not empty.
pub proof fn lines_end_at_line_feeds(l: Seq<char>, rest: Seq<char>)
    requires
        !l.contains('\n'),
    ensures
        l.len() == 0 || l.last() != '\r' ==> lines_of(l + seq!['\n'] + rest) == seq![l] + lines_of(
            rest,
        ),
        lines_of(l + seq!['\r', '\n'] + rest) == seq![l] + lines_of(rest),
        l.len() > 0 ==> lines_of(l) == seq![l],
        lines_of(Seq::empty()).len() == 0,
{
    assert forall|k: int| 0 <= k < l.len() implies l[k] != '\n' by {
        if l[k] == '\n' {
            assert(l.contains('\n'));
        }
    }
    let n = l.len() as int;
    let s = l + seq!['\n'] + rest;
    assert(s[n] == '\n');
    lemma_first_at_is(s, '\n', n);
    assert(s.take(n) == l);
    assert(s.skip(n + 1) == rest);
    let r = l + seq!['\r', '\n'] + rest;
    assert(r[n] == '\r' && r[n + 1] == '\n');
    lemma_first_at_is(r, '\n', n + 1);
    assert(r.take(n + 1).last() == '\r');
    assert(r.take(n + 1).drop_last() == l);
    assert(r.skip(n + 2) == rest);
    lemma_first_at_is(l, '\n', n);
}

/// Words are what stands between white space: leading white space is passed over,
/// and a run of other characters that the end of the text or white space follows
/// is a word.
pub proof fn words_stand_between_white_space(c: char, w: Seq<char>, rest: Seq<char>)
    requires
        white(c),
        w.len() > 0,
        forall|k: int| 0 <= k < w.len() ==> !white(#[trigger] w[k]),
    ensures
        words_of(Seq::empty()).len() == 0,
        words_of(seq![c] + rest) == words_of(rest),
        words_of(w) == seq![w],
        words_of(w + seq![c] + rest) == seq![w] + words_of(rest),
{
    let n = w.len() as int;
    let a = seq![c] + rest;
    assert(a.drop_first() == rest);
    lemma_word_len(a, 0);
    lemma_word_len(w, n);
    let s = w + seq![c] + rest;
    assert(s[n] == c);
    assert forall|k: int| 0 <= k < n implies !white(#[trigger] s[k]) by {
        assert(s[k] == w[k]);
    }
    lemma_word_len(s, n);
    assert(s.take(n) == w);
    assert(s.skip(n) == a);
    assert(words_of(a) == words_of(rest));
    assert(words_of(s) == seq![w] + words_of(s.skip(n)));
}

/// A text starts with another, ends with it or holds it where it is made of that
/// and something after it, before it or around it; and then something is left.
pub proof fn searching_goes_by_the_characters(s: Seq<char>, p: Seq<char>)
    ensures
        starts(s, p) <==> exists|b: Seq<char>| s == #[trigger] (p + b),
        ends(s, p) <==> exists|a: Seq<char>| s == #[trigger] (a + p),
        holds(s, p) <==> exists|a: Seq<char>, b: Seq<char>| s == #[trigger] (a + p + b),
        match after_prefix(s, p) {
            Some(b) => s == p + b,
            None => forall|b: Seq<char>| s != #[trigger] (p + b),
        },
{
    let n = p.len() as int;
    if starts(s, p) {
        assert(s == p + s.skip(n));
    }
    assert forall|b: Seq<char>| s == #[trigger] (p + b) implies starts(s, p) by {
        assert(s.take(n) == p);
    }
    if ends(s, p) {
        assert(s == s.take(s.len() - n) + p);
    }
    assert forall|a: Seq<char>| s == #[trigger] (a + p) implies ends(s, p) by {
        assert(s.skip(s.len() - n) == p);
    }
    if holds(s, p) {
        let i = choose|i: int| occurs_at(s, p, i);
        assert(s == s.take(i) + p + s.skip(i + n));
    }
    assert forall|a: Seq<char>, b: Seq<char>| s == #[trigger] (a + p + b) implies holds(s, p) by {
        assert(s.subrange(a.len() as int, a.len() + n) == p);
        assert(occurs_at(s, p, a.len() as int));
    }
}

/// The first position at which a text is found has it after it and no earlier
/// occurrence, the last one no later occurrence; both are found as soon as there
/// is any, and the text parts round the first.
pub proof fn occurrences_are_found(s: Seq<char>, p: Seq<char>)
    ensures
        first_found(s, p) is None <==> forall|i: int|
            0 <= i <= s.len() - p.len() ==> #[trigger] s.subrange(i, i + p.len()) != p,
        first_found(s, p) matches Some(n) ==> 0 <= n <= s.len() - p.len() && s.subrange(
            n,
            n + p.len(),
        ) == p && forall|i: int| 0 <= i < n ==> #[trigger] s.subrange(i, i + p.len()) != p,
        last_found(s, p) is None <==> forall|i: int|
            0 <= i <= s.len() - p.len() ==> #[trigger] s.subrange(i, i + p.len()) != p,
        last_found(s, p) matches Some(n) ==> 0 <= n <= s.len() - p.len() && s.subrange(
            n,
            n + p.len(),
        ) == p && forall|i: int|
            n < i <= s.len() - p.len() ==> #[trigger] s.subrange(i, i + p.len()) != p,
        parted_at(s, p) matches Some((a, b)) ==> s == a + p + b && first_found(s, p) == Some(
            a.len() as int,
        ),
        parted_at(s, p) is None ==> first_found(s, p) is None,
{
    lemma_first_found(s, p);
    lemma_last_found(s, p);
    match first_found(s, p) {
        Some(n) => {
            assert forall|i: int| 0 <= i < n implies #[trigger] s.subrange(i, i + p.len()) != p by {
                assert(!occurs_at(s, p, i));
            }
            assert(s == s.take(n) + p + s.skip(n + p.len()));
        },
        None => {
            assert forall|i: int| 0 <= i <= s.len() - p.len() implies #[trigger] s.subrange(
                i,
                i + p.len(),
            ) != p by {
                assert(!occurs_at(s, p, i));
            }
        },
    }
}

proof fn lemma_last_found(s: Seq<char>, p: Seq<char>)
    ensures
        match last_found(s, p) {
            Some(n) => 0 <= n <= s.len() - p.len() && s.subrange(n, n + p.len()) == p && forall|i: int|
                n < i <= s.len() - p.len() ==> #[trigger] s.subrange(i, i + p.len()) != p,
            None => forall|i: int|
                0 <= i <= s.len() - p.len() ==> #[trigger] s.subrange(i, i + p.len()) != p,
        },
    decreases s.len(),
{
    let n = s.len() - p.len();
    if ends(s, p) {
        assert(s.subrange(n, s.len() as int) == s.skip(n));
    } else {
        if n >= 0 {
            assert(s.subrange(n, n + p.len()) == s.skip(n));
        }
        if s.len() > 0 {
            let r = s.drop_last();
            lemma_last_found(r, p);
            assert forall|i: int| 0 <= i < n implies #[trigger] s.subrange(i, i + p.len())
                == r.subrange(i, i + p.len()) by {}
            match last_found(r, p) {
                Some(m) => {
                    assert(s.subrange(m, m + p.len()) == r.subrange(m, m + p.len()));
                },
                None => {},
            }
        }
    }
}

/// Replacing a character leaves every other one where it is.
pub proof fn replacing_touches_one_character(s: Seq<char>, a: char, b: char, k: int)
    requires
        0 <= k < s.len(),
    ensures
        swapped(s, a, b).len() == s.len(),
        s[k] == a ==> swapped(s, a, b)[k] == b,
        s[k] != a ==> swapped(s, a, b)[k] == s[k],
{
}

/// The first character in which two texts differ decides which stands first, and
/// of two of which one continues the other it is the shorter one.
pub proof fn the_first_difference_decides(
    a: Seq<char>,
    c: char,
    x: Seq<char>,
    d: char,
    y: Seq<char>,
)
    requires
        (c as u32) < (d as u32),
    ensures
        before(a + seq![c] + x, a + seq![d] + y),
        before(a, a + seq![c] + x),
    decreases a.len(),
{
    let p = a + seq![c] + x;
    let q = a + seq![d] + y;
    if a.len() > 0 {
        let r = a.drop_first();
        the_first_difference_decides(r, c, x, d, y);
        assert(p[0] == a[0] && q[0] == a[0]);
        assert(p.drop_first() == r + seq![c] + x);
        assert(q.drop_first() == r + seq![d] + y);
    } else {
        assert(p[0] == c && q[0] == d);
    }
}

/// A written number has a digit for each power of ten: its last digit is what the
/// number leaves over ten, and the digits before it write a tenth of it.
pub proof fn digits_have_their_places(n: nat)
    ensures
        forall|k: int|
            0 <= k < decimal(n).len() ==> 0x30 <= (#[trigger] decimal(n)[k]) as u32 <= 0x39,
        decimal(n).len() > 0,
        decimal(n).last() as u32 == 0x30 + n % 10,
        n < 10 ==> decimal(n).len() == 1,
        n >= 10 ==> decimal(n).drop_last() == decimal(n / 10),
{
    lemma_decimal(n);
    assert forall|k: int| 0 <= k < decimal(n).len() implies 0x30 <= (
    #[trigger] decimal(n)[k]) as u32 <= 0x39 by {
        assert(digit(decimal(n)[k]));
    }
    if n >= 10 {
        assert(decimal(n).drop_last() == decimal(n / 10));
    }
}

/// Different numbers are written differently.
pub proof fn numbers_are_written_apart(m: nat, n: nat)
    requires
        decimal(m) == decimal(n),
    ensures
        m == n,
{
    lemma_decimal(m);
    lemma_decimal(n);
}

/// Reading goes digit by digit: one more digit multiplies by ten and adds it, as
/// long as the number fits; a leading plus sign changes nothing; and nothing but
/// digits is read.
pub proof fn numbers_are_read_by_their_digits(s: Seq<char>, c: char, max: nat)
    ensures
        0x30 <= c as u32 <= 0x39 ==> parsed(seq![c], max) == (if c as u32 - 0x30 <= max {
            Some((c as u32 - 0x30) as nat)
        } else {
            None
        }),
        parsed(s, max) matches Some(n) ==> n <= max && s.len() > 0,
        parsed(s, max) matches Some(n) ==> parsed(s.push(c), max) == (if 0x30 <= c as u32 <= 0x39
            && n * 10 + (c as u32 - 0x30) <= max {
            Some((n * 10 + (c as u32 - 0x30)) as nat)
        } else {
            None
        }),
        parsed(s, max) is Some && s[0] != '+' ==> parsed(seq!['+'] + s, max) == parsed(s, max),
        parsed(s, max) is Some ==> forall|k: int|
            0 < k < s.len() ==> 0x30 <= (#[trigger] s[k]) as u32 <= 0x39,
        parsed(s, max) is Some ==> s[0] == '+' || 0x30 <= s[0] as u32 <= 0x39,
        parsed(Seq::empty(), max) is None,
{
    let one = seq![c];
    assert(one.drop_last() == Seq::<char>::empty());
    assert(number(Seq::<char>::empty()) == 0);
    assert(one[0] == c && one.last() == c);
    if 0x30 <= c as u32 <= 0x39 {
        assert(digits(one));
        assert(number(one) == c as u32 - 0x30);
    }
    if parsed(s, max) is Some {
        let d = if s[0] == '+' {
            s.drop_first()
        } else {
            s
        };
        let t = s.push(c);
        assert(t[0] == s[0]);
        let e = if t[0] == '+' {
            t.drop_first()
        } else {
            t
        };
        assert(e == d.push(c));
        assert(e.drop_last() == d);
        assert(e.last() == c);
        if digit(c) {
            assert(digits(e)) by {
                assert forall|k: int| 0 <= k < e.len() implies digit(#[trigger] e[k]) by {
                    if k < d.len() {
                        assert(e[k] == d[k]);
                    }
                }
            }
        } else {
            assert(!digit(e[d.len() as int]));
        }
        assert forall|k: int| 0 < k < s.len() implies 0x30 <= (#[trigger] s[k]) as u32 <= 0x39 by {
            if s[0] == '+' {
                assert(d[k - 1] == s[k]);
            } else {
                assert(d[k] == s[k]);
            }
            assert(digits(d));
        }
        if s[0] != '+' {
            assert(digit(d[0]));
            assert((seq!['+'] + s).drop_first() == s);
        }
    }
}

/// Views show the characters of every string, in the order of the list.
pub proof fn views_show_the_characters(v: Seq<String>, o: Option<String>, i: int)
    ensures
        views(v).len() == v.len(),
        0 <= i < v.len() ==> views(v)[i] == v[i]@,
        o is None ==> opt_view(o) is None,
        o is Some ==> opt_view(o) == Some(o->0@),
{
}

/// A quoted list stands in brackets, its items quoted one by one, with commas between them.
pub proof fn quoted_lists_hold_their_items(items: Seq<Seq<char>>, last: Seq<char>)
    ensures
        debug_list_text(Seq::empty()) == "["@ + Seq::empty() + "]"@,
        debug_list_text(seq![last]) == "["@ + debug_text(last) + "]"@,
        items.len() > 0 ==> debug_list_text(items.push(last)) == "["@ + (debug_items(items) + ", "@
            + debug_text(last)) + "]"@,
{
    assert(items.push(last).drop_last() =~= items);
}

} // verus!
