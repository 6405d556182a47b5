//! A small parser of `/etc/os-release` (distribution id and version).
use vstd::prelude::*;
use crate::text::{texts_part_at_the_first_separator, chars_of, lines, lines_of, opt_view, parted, same, split_once, string_of, trim, trimmed, views};

verus! {

#[derive(Debug, PartialEq, Eq)]
pub struct OsRelease {
    pub id: Option<String>,
    pub version_id: Option<String>,
}

/// What is known of a distribution.
#[verifier::ext_equal]
pub struct Distribution {
    pub id: Option<Seq<char>>,
    pub version_id: Option<Seq<char>>,
}

impl View for OsRelease {
    type V = Distribution;

    open spec fn view(&self) -> Distribution {
        Distribution { id: opt_view(self.id), version_id: opt_view(self.version_id) }
    }
}

impl Default for OsRelease {
    fn default() -> (os: Self)
        ensures
            os@ == unknown(),
    {
        OsRelease { id: None, version_id: None }
    }
}

/// A distribution of which nothing is known.
pub open spec fn unknown() -> Distribution {
    Distribution { id: None, version_id: None }
}

/// A quotation mark.
pub open spec fn quote(c: char) -> bool {
    c == '"' || c == '\''
}

/// The text without leading quotation marks.
pub open spec fn unquoted_start(s: Seq<char>) -> Seq<char>
    decreases s.len(),
{
    if s.len() > 0 && quote(s[0]) {
        unquoted_start(s.drop_first())
    } else {
        s
    }
}

/// The text without trailing quotation marks.
pub open spec fn unquoted_end(s: Seq<char>) -> Seq<char>
    decreases s.len(),
{
    if s.len() > 0 && quote(s.last()) {
        unquoted_end(s.drop_last())
    } else {
        s
    }
}

/// The text without the quotation marks around it.
pub open spec fn unquoted(s: Seq<char>) -> Seq<char> {
    unquoted_end(unquoted_start(s))
}

fn is_quote(c: char) -> (r: bool)
    ensures
        r == quote(c),
{
    c == '"' || c == '\''
}

fn unquote(s: &str) -> (out: String)
    ensures
        out@ == unquoted(s@),
{
    let cs = chars_of(s);
    let mut from: usize = 0;
    assert(cs@.skip(0) =~= cs@);
    while from < cs.len() && is_quote(cs[from])
        invariant
            from <= cs@.len(),
            unquoted_start(cs@) == unquoted_start(cs@.skip(from as int)),
        decreases cs@.len() - from,
    {
        assert(cs@.skip(from as int).drop_first() =~= cs@.skip(from + 1));
        from = from + 1;
    }
    let ghost tail = cs@.skip(from as int);
    let mut to: usize = cs.len();
    assert(cs@.subrange(from as int, to as int) =~= tail);
    while to > from && is_quote(cs[to - 1])
        invariant
            from <= to <= cs@.len(),
            unquoted_end(tail) == unquoted_end(cs@.subrange(from as int, to as int)),
        decreases to,
    {
        assert(cs@.subrange(from as int, to as int).drop_last() =~= cs@.subrange(
            from as int,
            to - 1,
        ));
        to = to - 1;
    }
    string_of(&cs, from, to)
}

/// What is known after one more line.
pub open spec fn with_line(d: Distribution, line: Seq<char>) -> Distribution {
    match parted(trimmed(line), '=') {
        Some((k, v)) => {
            let value = unquoted(trimmed(v));
            if trimmed(k) == "ID"@ {
                Distribution { id: Some(value), ..d }
            } else if trimmed(k) == "VERSION_ID"@ {
                Distribution { version_id: Some(value), ..d }
            } else {
                d
            }
        },
        None => d,
    }
}

/// What the lines say; of two that name the same thing the later counts.
pub open spec fn distribution_of(ls: Seq<Seq<char>>) -> Distribution
    decreases ls.len(),
{
    if ls.len() == 0 {
        unknown()
    } else {
        with_line(distribution_of(ls.drop_last()), ls.last())
    }
}

impl OsRelease {
    /// Parse `ID` and `VERSION_ID` from os-release content. Surrounding double or
    /// single quotes are stripped.
    pub fn parse(content: &str) -> (os: OsRelease)
        ensures
            os@ == distribution_of(lines_of(content@)),
    {
        let ls = lines(content);
        let ghost lv = views(ls@);
        let mut os = OsRelease { id: None, version_id: None };
        let mut i: usize = 0;
        assert(lv.take(0) =~= Seq::empty());
        while i < ls.len()
            invariant
                i <= ls@.len(),
                lv == views(ls@),
                os@ == distribution_of(lv.take(i as int)),
            decreases ls@.len() - i,
        {
            assert(lv.take(i + 1).drop_last() =~= lv.take(i as int));
            assert(lv.take(i + 1).last() == ls@[i as int]@);
            let line = trim(ls[i].as_str());
            if let Some((k, v)) = split_once(line.as_str(), '=') {
                let value = unquote(trim(v.as_str()).as_str());
                let key = trim(k.as_str());
                if same(key.as_str(), "ID") {
                    os.id = Some(value);
                } else if same(key.as_str(), "VERSION_ID") {
                    os.version_id = Some(value);
                }
            }
            i = i + 1;
        }
        assert(lv.take(lv.len() as int) =~= lv);
        os
    }
}

/// A value loses the quotation marks around it, of either sort, and nothing else.
pub proof fn values_lose_only_their_quotes(s: Seq<char>)
    ensures
        exists|i: int, j: int|
            0 <= i <= j <= s.len() && #[trigger] s.subrange(i, j) == unquoted(s) && (forall|k: int|
                0 <= k < i || j <= k < s.len() ==> (#[trigger] s[k] == '"' || s[k] == '\'')),
        unquoted(s).len() > 0 ==> unquoted(s)[0] != '"' && unquoted(s)[0] != '\''
            && unquoted(s).last() != '"' && unquoted(s).last() != '\'',
        s.len() > 0 && s[0] != '"' && s[0] != '\'' && s.last() != '"' && s.last() != '\'' ==> unquoted(
            s,
        ) == s,
{
    let i = lemma_start_unquoted(s);
    let t = unquoted_start(s);
    let j = lemma_end_unquoted(t);
    assert(unquoted(s) =~= s.subrange(i, i + j));
    assert forall|k: int| 0 <= k < i || i + j <= k < s.len() implies (#[trigger] s[k] == '"' || s[k]
        == '\'') by {
        if k >= i + j {
            assert(t[k - i] == s[k]);
        }
    }
    if s.len() > 0 && s[0] != '"' && s[0] != '\'' {
        assert(t == s);
        if s.last() != '"' && s.last() != '\'' {
            assert(unquoted_end(s) == s);
        }
    }
}

proof fn lemma_start_unquoted(s: Seq<char>) -> (i: int)
    ensures
        0 <= i <= s.len(),
        unquoted_start(s) == s.skip(i),
        forall|k: int| 0 <= k < i ==> quote(#[trigger] s[k]),
        i < s.len() ==> !quote(s[i]),
    decreases s.len(),
{
    if s.len() > 0 && quote(s[0]) {
        let r = s.drop_first();
        let i = lemma_start_unquoted(r);
        assert(r.skip(i) =~= s.skip(i + 1));
        assert forall|k: int| 0 <= k < i + 1 implies quote(#[trigger] s[k]) by {
            if k > 0 {
                assert(r[k - 1] == s[k]);
            }
        }
        i + 1
    } else {
        assert(s.skip(0) =~= s);
        0
    }
}

proof fn lemma_end_unquoted(s: Seq<char>) -> (j: int)
    ensures
        0 <= j <= s.len(),
        unquoted_end(s) == s.take(j),
        forall|k: int| j <= k < s.len() ==> quote(#[trigger] s[k]),
        j > 0 ==> !quote(s[j - 1]),
    decreases s.len(),
{
    if s.len() > 0 && quote(s.last()) {
        let r = s.drop_last();
        let j = lemma_end_unquoted(r);
        assert(r.take(j) =~= s.take(j));
        assert forall|k: int| j <= k < s.len() implies quote(#[trigger] s[k]) by {
            if k < s.len() - 1 {
                assert(r[k] == s[k]);
            }
        }
        j
    } else {
        assert(s.take(s.len() as int) =~= s);
        s.len() as int
    }
}

/// A line sets what its key names to the value behind the first equals sign, without white
/// space and quotes; a line with another key, or without an equals sign, changes nothing.
pub proof fn lines_set_what_they_name(
    d: Distribution,
    line: Seq<char>,
    key: Seq<char>,
    value: Seq<char>,
)
    requires
        !key.contains('='),
    ensures
        trimmed(line) == key + seq!['='] + value ==> {
            &&& trimmed(key) == "ID"@ ==> with_line(d, line).id == Some(unquoted(trimmed(value)))
                && with_line(d, line).version_id == d.version_id
            &&& trimmed(key) == "VERSION_ID"@ ==> with_line(d, line).version_id == Some(
                unquoted(trimmed(value)),
            ) && with_line(d, line).id == d.id
            &&& trimmed(key) != "ID"@ && trimmed(key) != "VERSION_ID"@ ==> with_line(d, line) == d
        },
        trimmed(line) == key ==> with_line(d, line) == d,
{
    texts_part_at_the_first_separator(key, '=', value);
    reveal_strlit("ID");
    reveal_strlit("VERSION_ID");
    assert("ID"@.len() == 2);
    assert("VERSION_ID"@.len() == 10);
}

/// What the lines say is what the last of them that names it says: later lines that name
/// neither change nothing.
pub proof fn later_lines_count(ls: Seq<Seq<char>>, line: Seq<char>)
    ensures
        distribution_of(ls.push(line)) == with_line(distribution_of(ls), line),
        distribution_of(Seq::empty()).id is None,
        distribution_of(Seq::empty()).version_id is None,
{
    assert(ls.push(line).drop_last() =~= ls);
}

} // verus!
