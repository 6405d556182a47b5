//! Stand-ins for the operating system: a runner that answers by rules, and a
//! file system that lives in memory. Both record what they were asked.
use vstd::prelude::*;
use crate::sys::command::{Answer, CommandOutput, CommandRunner, Invocation};
use crate::sys::fs::{Fs, FsOp};
use crate::text::{cat3, same, str_views, views};

verus! {

/// How to answer a run.
pub struct Rule {
    program: String,
    needs: Vec<String>,
    fallback: bool,
    answer: Answer,
}

impl Rule {
    /// Whether the rule answers this run: the program is the same and every
    /// argument that the rule needs is there.
    pub closed spec fn fits(self, program: Seq<char>, args: Seq<Seq<char>>) -> bool {
        self.program@ == program && forall|k: int|
            0 <= k < self.needs@.len() ==> args.contains((#[trigger] self.needs@[k])@)
    }

    /// Whether the rule stands back behind those that name arguments.
    pub closed spec fn is_fallback(self) -> bool {
        self.fallback
    }

    /// What the rule answers.
    pub closed spec fn answers(self) -> Answer {
        self.answer
    }
}

/// The answer of the first rule of the given rank that fits.
pub open spec fn first_answer(
    rules: Seq<Rule>,
    fallback: bool,
    program: Seq<char>,
    args: Seq<Seq<char>>,
) -> Option<Answer>
    decreases rules.len(),
{
    if rules.len() == 0 {
        None
    } else if rules[0].is_fallback() == fallback && rules[0].fits(program, args) {
        Some(rules[0].answers())
    } else {
        first_answer(rules.drop_first(), fallback, program, args)
    }
}

proof fn lemma_added_rule(
    rules: Seq<Rule>,
    rule: Rule,
    fallback: bool,
    program: Seq<char>,
    args: Seq<Seq<char>>,
)
    ensures
        first_answer(rules.push(rule), fallback, program, args) == (match first_answer(
            rules,
            fallback,
            program,
            args,
        ) {
            Some(a) => Some(a),
            None => if rule.is_fallback() == fallback && rule.fits(program, args) {
                Some(rule.answers())
            } else {
                None
            },
        }),
    decreases rules.len(),
{
    if rules.len() > 0 {
        lemma_added_rule(rules.drop_first(), rule, fallback, program, args);
        assert(rules.push(rule).drop_first() == rules.drop_first().push(rule));
    } else {
        assert(rules.push(rule).drop_first() == rules);
    }
}

/// Whether every one of `needs` stands in `args`.
pub open spec fn all_in(needs: Seq<Seq<char>>, args: Seq<Seq<char>>) -> bool {
    forall|k: int| 0 <= k < needs.len() ==> args.contains(#[trigger] needs[k])
}

/// A recorded run.
pub struct RecordedRun {
    program: String,
    args: Vec<String>,
    answer: Answer,
}

impl RecordedRun {
    pub closed spec fn invocation(self) -> Invocation {
        Invocation { program: self.program@, args: views(self.args@), answer: self.answer }
    }
}

/// A runner that answers by rules. A program without a rule exits with 127.
pub struct FakeCommandRunner {
    rules: Vec<Rule>,
    log: Vec<RecordedRun>,
}

fn clone_answer(a: &Answer) -> (r: Answer)
    ensures
        r == *a,
{
    match a {
        Ok(o) => Ok(o.clone()),
        Err(e) => Err(e.clone()),
    }
}

fn clone_texts(v: &Vec<String>) -> (out: Vec<String>)
    ensures
        out@ == v@,
{
    let mut out: Vec<String> = Vec::new();
    let mut i: usize = 0;
    while i < v.len()
        invariant
            i <= v@.len(),
            out@ == v@.take(i as int),
        decreases v@.len() - i,
    {
        out.push(v[i].clone());
        i = i + 1;
        assert(v@.take(i as int) == v@.take(i as int - 1).push(v@[i as int - 1]));
    }
    assert(v@.take(v@.len() as int) == v@);
    out
}

/// Owned copies of string slices.
pub fn owned(args: &[&str]) -> (out: Vec<String>)
    ensures
        views(out@) == str_views(args@),
{
    let mut out: Vec<String> = Vec::new();
    let mut i: usize = 0;
    while i < args.len()
        invariant
            i <= args@.len(),
            views(out@) == str_views(args@.take(i as int)),
            out@.len() == i,
        decreases args@.len() - i,
    {
        let ghost old_out = out@;
        out.push(args[i].to_owned());
        assert(views(out@) == views(old_out).push(args@[i as int]@));
        assert(str_views(args@.take(i as int + 1)) == str_views(args@.take(i as int)).push(
            args@[i as int]@,
        ));
        i = i + 1;
    }
    assert(args@.take(args@.len() as int) == args@);
    out
}

fn has_text(args: &[&str], t: &str) -> (r: bool)
    ensures
        r == str_views(args@).contains(t@),
{
    let mut i: usize = 0;
    while i < args.len()
        invariant
            i <= args@.len(),
            forall|k: int| 0 <= k < i ==> str_views(args@)[k] != t@,
        decreases args@.len() - i,
    {
        if same(args[i], t) {
            assert(str_views(args@)[i as int] == t@);
            return true;
        }
        i = i + 1;
    }
    false
}

impl FakeCommandRunner {
    /// What the rules that name arguments answer to a run.
    pub closed spec fn particular(self, program: Seq<char>, args: Seq<Seq<char>>) -> Option<Answer> {
        first_answer(self.rules@, false, program, args)
    }

    /// What the rules for a whole program answer to a run.
    pub closed spec fn general(self, program: Seq<char>, args: Seq<Seq<char>>) -> Option<Answer> {
        first_answer(self.rules@, true, program, args)
    }

    /// What the runner answers to a run.
    pub open spec fn reply(self, program: Seq<char>, args: Seq<Seq<char>>) -> Option<Answer> {
        match self.particular(program, args) {
            Some(a) => Some(a),
            None => self.general(program, args),
        }
    }

    /// A runner without rules that has run nothing.
    pub fn new() -> (r: Self)
        ensures
            r.trace() == Seq::<Invocation>::empty(),
            forall|p: Seq<char>, a: Seq<Seq<char>>| r.reply(p, a) is None,
    {
        let r = FakeCommandRunner { rules: Vec::new(), log: Vec::new() };
        assert(r.trace() =~= Seq::empty());
        r
    }

    fn with_rule(self, program: &str, needs: &[&str], fallback: bool, answer: Answer) -> (r: Self)
        ensures
            r.trace() == self.trace(),
            forall|p: Seq<char>, a: Seq<Seq<char>>, f: bool|
                #[trigger] first_answer(r.rules@, f, p, a) == (match first_answer(
                    self.rules@,
                    f,
                    p,
                    a,
                ) {
                    Some(x) => Some(x),
                    None => if f == fallback && p == program@ && all_in(str_views(needs@), a) {
                        Some(answer)
                    } else {
                        None
                    },
                }),
    {
        let mut rules = self.rules;
        let ghost before = rules@;
        let rule = Rule { program: program.to_owned(), needs: owned(needs), fallback, answer };
        rules.push(rule);
        let r = FakeCommandRunner { rules, log: self.log };
        assert(r.rules@ == before.push(rule));
        proof {
            assert forall|p: Seq<char>, a: Seq<Seq<char>>, f: bool|
                #[trigger] first_answer(r.rules@, f, p, a) == (match first_answer(before, f, p, a) {
                    Some(x) => Some(x),
                    None => if f == fallback && p == program@ && all_in(str_views(needs@), a) {
                        Some(answer)
                    } else {
                        None
                    },
                }) by {
                lemma_added_rule(before, rule, f, p, a);
                let ns = str_views(needs@);
                assert(views(rule.needs@).len() == ns.len());
                assert forall|k: int| 0 <= k < ns.len() implies #[trigger] ns[k]
                    == rule.needs@[k]@ by {
                    assert(views(rule.needs@)[k] == ns[k]);
                }
                if rule.fits(p, a) {
                    assert forall|k: int| 0 <= k < ns.len() implies a.contains(
                        #[trigger] ns[k],
                    ) by {
                        assert(a.contains(rule.needs@[k]@));
                    }
                }
                if p == program@ && all_in(ns, a) {
                    assert forall|k: int| 0 <= k < rule.needs@.len() implies a.contains(
                        (#[trigger] rule.needs@[k])@,
                    ) by {
                        assert(a.contains(ns[k]));
                    }
                }
                assert(rule.fits(p, a) == (p == program@ && all_in(str_views(needs@), a)));
            }
        }
        r
    }

    /// Answer runs of `program` that no more particular rule answers.
    pub fn with(self, program: &str, output: CommandOutput) -> (r: Self)
        ensures
            r.trace() == self.trace(),
            forall|p: Seq<char>, a: Seq<Seq<char>>|
                {
                    &&& #[trigger] r.particular(p, a) == self.particular(p, a)
                    &&& r.general(p, a) == (if self.general(p, a) is None && p == program@ {
                        Some(Ok(output))
                    } else {
                        self.general(p, a)
                    })
                },
    {
        self.with_rule(program, &[], true, Ok(output))
    }

    /// Fail to start `program` where no more particular rule answers.
    pub fn with_error(self, program: &str) -> (r: Self)
        ensures
            r.trace() == self.trace(),
            forall|p: Seq<char>, a: Seq<Seq<char>>|
                {
                    &&& #[trigger] r.particular(p, a) == self.particular(p, a)
                    &&& if self.general(p, a) is None && p == program@ {
                        r.general(p, a) is Some && r.general(p, a)->0 is Err
                    } else {
                        r.general(p, a) == self.general(p, a)
                    }
                },
    {
        self.with_rule(program, &[], true, Err(cat3("cannot run ", program, ": not found")))
    }

    /// Answer runs of `program` whose arguments hold every one of `needs`.
    pub fn on(self, program: &str, needs: &[&str], output: CommandOutput) -> (r: Self)
        ensures
            r.trace() == self.trace(),
            forall|p: Seq<char>, a: Seq<Seq<char>>|
                {
                    &&& r.general(p, a) == self.general(p, a)
                    &&& #[trigger] r.particular(p, a) == (if self.particular(p, a) is None && p
                        == program@ && all_in(str_views(needs@), a) {
                        Some(Ok(output))
                    } else {
                        self.particular(p, a)
                    })
                },
    {
        self.with_rule(program, needs, false, Ok(output))
    }

    fn find(&self, fallback: bool, program: &str, args: &[&str]) -> (out: Option<Answer>)
        ensures
            out == first_answer(self.rules@, fallback, program@, str_views(args@)),
    {
        let mut i: usize = 0;
        assert(self.rules@.skip(0) == self.rules@);
        while i < self.rules.len()
            invariant
                i <= self.rules@.len(),
                first_answer(self.rules@, fallback, program@, str_views(args@)) == first_answer(
                    self.rules@.skip(i as int),
                    fallback,
                    program@,
                    str_views(args@),
                ),
            decreases self.rules@.len() - i,
        {
            let rule = &self.rules[i];
            let mut fits: bool = rule.fallback == fallback && same(rule.program.as_str(), program);
            let mut k: usize = 0;
            while k < rule.needs.len()
                invariant
                    k <= rule.needs@.len(),
                    fits == (rule.fallback == fallback && rule.program@ == program@ && forall|j: int|
                        0 <= j < k ==> str_views(args@).contains((#[trigger] rule.needs@[j])@)),
                decreases rule.needs@.len() - k,
            {
                if !has_text(args, rule.needs[k].as_str()) {
                    fits = false;
                }
                k = k + 1;
            }
            assert(self.rules@.skip(i as int)[0] == *rule);
            assert(self.rules@.skip(i as int).drop_first() == self.rules@.skip(i as int + 1));
            if fits {
                return Some(clone_answer(&rule.answer));
            }
            i = i + 1;
        }
        None
    }

    /// Every run so far, oldest first.
    pub fn calls(&self) -> (out: Vec<(String, Vec<String>)>)
        ensures
            out@.len() == self.trace().len(),
            forall|k: int|
                0 <= k < out@.len() ==> (#[trigger] out@[k]).0@ == self.trace()[k].program && views(
                    out@[k].1@,
                ) == self.trace()[k].args,
    {
        let mut out: Vec<(String, Vec<String>)> = Vec::new();
        let mut i: usize = 0;
        while i < self.log.len()
            invariant
                i <= self.log@.len(),
                out@.len() == i,
                forall|k: int|
                    0 <= k < i ==> (#[trigger] out@[k]).0@ == self.log@[k].program@ && out@[k].1@
                        == self.log@[k].args@,
            decreases self.log@.len() - i,
        {
            out.push((self.log[i].program.clone(), clone_texts(&self.log[i].args)));
            i = i + 1;
        }
        out
    }

    /// Whether `program` was run at all.
    pub fn ran(&self, program: &str) -> (r: bool)
        ensures
            r == exists|k: int|
                0 <= k < self.trace().len() && (#[trigger] self.trace()[k]).program == program@,
    {
        let mut i: usize = 0;
        while i < self.log.len()
            invariant
                i <= self.log@.len(),
                forall|k: int| 0 <= k < i ==> (#[trigger] self.trace()[k]).program != program@,
            decreases self.log@.len() - i,
        {
            if same(self.log[i].program.as_str(), program) {
                assert(self.trace()[i as int].program == program@);
                return true;
            }
            i = i + 1;
        }
        false
    }
}

impl CommandRunner for FakeCommandRunner {
    closed spec fn trace(&self) -> Seq<Invocation> {
        self.log@.map_values(|r: RecordedRun| r.invocation())
    }

    fn run(&mut self, program: &str, args: &[&str]) -> (answer: Answer)
        ensures
            match old(self).reply(program@, str_views(args@)) {
                Some(a) => answer == a,
                None => answer is Ok && answer->Ok_0.status == 127,
            },
            forall|p: Seq<char>, a: Seq<Seq<char>>|
                #[trigger] final(self).reply(p, a) == old(self).reply(p, a),
    {
        let first = self.find(false, program, args);
        let answer = match first {
            Some(a) => a,
            None => match self.find(true, program, args) {
                Some(a) => a,
                None => Ok(
                    CommandOutput { status: 127, stdout: String::new(), stderr: String::new() },
                ),
            },
        };
        let entry = RecordedRun {
            program: program.to_owned(),
            args: owned(args),
            answer: clone_answer(&answer),
        };
        self.log.push(entry);
        assert(self.trace() =~= old(self).trace().push(entry.invocation()));
        answer
    }
}

/// A file held in memory.
pub struct FakeFile {
    path: String,
    contents: String,
}

/// A recorded file operation.
pub enum RecordedOp {
    Read(String, Result<String, String>),
    Write(String, String, String, Result<(), String>),
}

impl RecordedOp {
    pub closed spec fn op(self) -> FsOp {
        match self {
            RecordedOp::Read(path, answer) => FsOp::Read { path: path@, answer },
            RecordedOp::Write(dir, filename, contents, answer) => FsOp::Write {
                dir: dir@,
                filename: filename@,
                contents: contents@,
                answer,
            },
        }
    }
}

/// A file system in memory.
pub struct FakeFs {
    files: Vec<FakeFile>,
    log: Vec<RecordedOp>,
}

/// What the newest file of that path holds.
pub closed spec fn newest(files: Seq<FakeFile>, path: Seq<char>) -> Option<Seq<char>>
    decreases files.len(),
{
    if files.len() == 0 {
        None
    } else if files.last().path@ == path {
        Some(files.last().contents@)
    } else {
        newest(files.drop_last(), path)
    }
}

impl FakeFs {
    /// What a path holds.
    pub closed spec fn holds_at(self, path: Seq<char>) -> Option<Seq<char>> {
        newest(self.files@, path)
    }

    /// A file system without files.
    pub fn new() -> (r: Self)
        ensures
            r.ops() == Seq::<FsOp>::empty(),
            forall|p: Seq<char>| r.holds_at(p) is None,
    {
        let r = FakeFs { files: Vec::new(), log: Vec::new() };
        assert(r.ops() =~= Seq::empty());
        r
    }

    /// Add a file.
    pub fn with_file(self, path: &str, contents: &str) -> (r: Self)
        ensures
            r.ops() == self.ops(),
            forall|p: Seq<char>|
                r.holds_at(p) == (if p == path@ {
                    Some(contents@)
                } else {
                    self.holds_at(p)
                }),
    {
        let mut files = self.files;
        let ghost earlier = files@;
        files.push(FakeFile { path: path.to_owned(), contents: contents.to_owned() });
        assert(files@.drop_last() == earlier);
        FakeFs { files, log: self.log }
    }

    /// What a path holds.
    pub fn contents(&self, path: &str) -> (out: Option<String>)
        ensures
            crate::text::opt_view(out) == self.holds_at(path@),
    {
        let mut i: usize = self.files.len();
        assert(self.files@.take(i as int) == self.files@);
        while i > 0
            invariant
                i <= self.files@.len(),
                newest(self.files@, path@) == newest(self.files@.take(i as int), path@),
            decreases i,
        {
            assert(self.files@.take(i as int).drop_last() == self.files@.take(i as int - 1));
            i = i - 1;
            if same(self.files[i].path.as_str(), path) {
                return Some(self.files[i].contents.clone());
            }
        }
        None
    }
}

impl Fs for FakeFs {
    closed spec fn ops(&self) -> Seq<FsOp> {
        self.log@.map_values(|r: RecordedOp| r.op())
    }

    fn read_to_string(&mut self, path: &str) -> (answer: Result<String, String>)
        ensures
            match old(self).holds_at(path@) {
                Some(c) => answer is Ok && answer->Ok_0@ == c,
                None => answer is Err,
            },
            forall|p: Seq<char>| final(self).holds_at(p) == old(self).holds_at(p),
    {
        let found = self.contents(path);
        let answer: Result<String, String> = match found {
            Some(c) => Ok(c),
            None => Err(cat3("cannot read ", path, ": not found")),
        };
        let copy: Result<String, String> = match &answer {
            Ok(c) => Ok(c.clone()),
            Err(e) => Err(e.clone()),
        };
        let entry = RecordedOp::Read(path.to_owned(), copy);
        self.log.push(entry);
        assert(self.ops() =~= old(self).ops().push(entry.op()));
        answer
    }

    fn write_atomic(&mut self, dir: &str, filename: &str, contents: &str) -> (answer: Result<
        (),
        String,
    >)
        ensures
            answer is Ok,
            forall|p: Seq<char>|
                final(self).holds_at(p) == (if p == dir@ + "/"@ + filename@ {
                    Some(contents@)
                } else {
                    old(self).holds_at(p)
                }),
    {
        let path = cat3(dir, "/", filename);
        let answer: Result<(), String> = Ok(());
        let ghost earlier = self.files@;
        self.files.push(FakeFile { path, contents: contents.to_owned() });
        assert(self.files@.drop_last() == earlier);
        let entry = RecordedOp::Write(
            dir.to_owned(),
            filename.to_owned(),
            contents.to_owned(),
            Ok(()),
        );
        self.log.push(entry);
        assert(self.ops() =~= old(self).ops().push(entry.op()));
        answer
    }
}

} // verus!
