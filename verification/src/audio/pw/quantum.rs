//! The PipeWire quantum and rate, and the capture latency that follows from them.
use vstd::prelude::*;
use crate::audio::pw::parse::id_value;
use crate::sys::command::{asked, Answer, CommandRunner, Invocation};
use crate::text::{cat3, contains, first_at, holds, index_of, lines, lines_of, chars_of, parse_u32, parsed, parted_at, split_once_at, find, first_found, string_of, str_views, trim, trimmed, views, decimal, digits_have_their_places, lemma_first_at_is, occurrences_are_found, trimming_takes_white_space_off_the_ends, white, written_numbers_read_back};

verus! {

pub const DEFAULT_QUANTUM: u32 = 1024;

pub const DEFAULT_RATE: u32 = 48_000;

/// Capture latency never goes below this.
pub const MIN_LATENCY_MS: u32 = 50;

/// Live PipeWire clock settings.
#[derive(Debug, Clone, Copy, PartialEq, Eq, Structural)]
pub struct PwQuantum {
    pub quantum: u32,
    pub rate: u32,
}

/// The clock settings where nothing else is known.
pub open spec fn default_quantum() -> PwQuantum {
    PwQuantum { quantum: DEFAULT_QUANTUM, rate: DEFAULT_RATE }
}

impl PwQuantum {
    /// The rate that the latency goes by: a rate of zero stands for the default.
    pub open spec fn effective_rate(self) -> int {
        if self.rate == 0 {
            DEFAULT_RATE as int
        } else {
            self.rate as int
        }
    }

    /// The milliseconds of two quanta, rounded up.
    pub open spec fn two_periods_ms(self) -> int {
        (2000 * self.quantum + self.effective_rate() - 1) / self.effective_rate()
    }

    /// The capture latency: the milliseconds of two quanta, at least 50, and at most
    /// what 32 bits can tell.
    pub open spec fn latency_ms(self) -> int {
        if self.two_periods_ms() < MIN_LATENCY_MS {
            MIN_LATENCY_MS as int
        } else if self.two_periods_ms() > u32::MAX {
            u32::MAX as int
        } else {
            self.two_periods_ms()
        }
    }

    /// Capture latency in milliseconds that safely exceeds the quantum: at least two
    /// quantum periods, floored at 50 ms. (More than 32 bits can tell stays at their
    /// maximum.)
    pub fn capture_latency_ms(&self) -> (ms: u32)
        ensures
            ms == self.latency_ms(),
    {
        let rate: u64 = if self.rate == 0 {
            DEFAULT_RATE as u64
        } else {
            self.rate as u64
        };
        let sum: u64 = 2000 * (self.quantum as u64) + rate - 1;
        let two_periods: u64 = sum / rate;
        if two_periods < MIN_LATENCY_MS as u64 {
            MIN_LATENCY_MS
        } else if two_periods > u32::MAX as u64 {
            u32::MAX
        } else {
            two_periods as u32
        }
    }
}

/// The capture latency is at least 50 ms, and lasts at least two quanta, for every
/// clock whose two quanta can be told in 32 bits of milliseconds.
pub proof fn latency_covers_two_quanta(q: PwQuantum)
    requires
        q.two_periods_ms() <= u32::MAX,
    ensures
        q.latency_ms() >= MIN_LATENCY_MS,
        q.latency_ms() * q.effective_rate() >= 2000 * q.quantum,
{
    let ms = q.latency_ms();
    let r = q.effective_rate();
    let n = 2000 * q.quantum + r - 1;
    let p = n / r;
    assert(p >= 0 && p * r + r > n) by (nonlinear_arith)
        requires
            p == n / r,
            r > 0,
            n >= 0,
    ;
    assert(ms >= p);
    assert(ms * r >= p * r) by (nonlinear_arith)
        requires
            ms >= p,
            r > 0,
    ;
}

/// The value that a settings line gives: what stands between `value:'` and the next
/// quote, or a second `value:'`.
pub open spec fn setting_value(line: Seq<char>) -> Option<nat> {
    match parted_at(line, "value:'"@) {
        Some((_, after)) => {
            let upto = match first_found(after, "value:'"@) {
                Some(n) => after.take(n),
                None => after,
            };
            parsed(trimmed(upto.take(first_at(upto, '\'') as int)), u32::MAX as nat)
        },
        None => None,
    }
}

/// The value of the first line, from `i` on, that names the key.
pub open spec fn setting_from(ls: Seq<Seq<char>>, i: int, pattern: Seq<char>) -> Option<nat>
    decreases ls.len() - i,
{
    if i < 0 || i >= ls.len() {
        None
    } else if holds(ls[i], pattern) {
        setting_value(ls[i])
    } else {
        setting_from(ls, i + 1, pattern)
    }
}

/// The value of a key in the output of `pw-metadata -n settings`.
pub open spec fn setting_in(output: Seq<char>, key: Seq<char>) -> Option<nat> {
    setting_from(lines_of(output), 0, "key:'"@ + key + "'"@)
}

fn parse_setting_value(line: &str) -> (value: Option<u32>)
    ensures
        id_value(value) == setting_value(line@),
{
    let after = match split_once_at(line, "value:'") {
        Some((_, after)) => after,
        None => {
            return None;
        },
    };
    let cs = chars_of(after.as_str());
    let end: usize = match find(after.as_str(), "value:'") {
        Some(n) => n,
        None => cs.len(),
    };
    let upto = string_of(&cs, 0, end);
    let us = chars_of(upto.as_str());
    let quote: usize = index_of(&us, 0, '\'');
    let value = string_of(&us, 0, quote);
    proof {
        assert(us@.skip(0) =~= us@);
        let u = match first_found(after@, "value:'"@) {
            Some(n) => after@.take(n),
            None => after@,
        };
        assert(upto@ =~= u);
        assert(value@ =~= u.take(first_at(u, '\'') as int));
    }
    parse_u32(trim(value.as_str()).as_str())
}

/// Parse one `pw-metadata -n settings` value, e.g.
/// `update: id:0 key:'clock.quantum' value:'1024' type:''` gives 1024.
pub fn parse_pw_setting(output: &str, key: &str) -> (value: Option<u32>)
    ensures
        id_value(value) == setting_in(output@, key@),
{
    let pattern = cat3("key:'", key, "'");
    let ls = lines(output);
    let ghost lv = views(ls@);
    let mut i: usize = 0;
    while i < ls.len()
        invariant
            i <= ls@.len(),
            lv == views(ls@),
            setting_in(output@, key@) == setting_from(lv, i as int, pattern@),
        decreases ls@.len() - i,
    {
        assert(lv[i as int] == ls@[i as int]@);
        if contains(ls[i].as_str(), pattern.as_str()) {
            return parse_setting_value(ls[i].as_str());
        }
        i = i + 1;
    }
    None
}

/// A setting, or what stands in for it.
pub open spec fn setting_or(value: Option<nat>, fallback: u32) -> u32 {
    match value {
        Some(n) => n as u32,
        None => fallback,
    }
}

/// The clock settings that an answer of `pw-metadata -n settings` tells.
pub open spec fn quantum_told(answer: Answer) -> PwQuantum {
    match answer {
        Ok(o) => if o.ok() {
            PwQuantum {
                quantum: setting_or(setting_in(o.stdout@, "clock.quantum"@), DEFAULT_QUANTUM),
                rate: setting_or(setting_in(o.stdout@, "clock.rate"@), DEFAULT_RATE),
            }
        } else {
            default_quantum()
        },
        Err(_) => default_quantum(),
    }
}

/// Read the clock settings from what `pw-metadata -n settings` answered.
pub fn quantum_from(answer: &Answer) -> (q: PwQuantum)
    ensures
        q == quantum_told(*answer),
{
    match answer {
        Ok(o) => if o.success() {
            let quantum: u32 = match parse_pw_setting(o.stdout.as_str(), "clock.quantum") {
                Some(n) => n,
                None => DEFAULT_QUANTUM,
            };
            let rate: u32 = match parse_pw_setting(o.stdout.as_str(), "clock.rate") {
                Some(n) => n,
                None => DEFAULT_RATE,
            };
            PwQuantum { quantum, rate }
        } else {
            PwQuantum { quantum: DEFAULT_QUANTUM, rate: DEFAULT_RATE }
        },
        Err(_) => PwQuantum { quantum: DEFAULT_QUANTUM, rate: DEFAULT_RATE },
    }
}

/// The arguments of the settings query.
pub open spec fn settings_args() -> Seq<Seq<char>> {
    seq!["-n"@, "settings"@]
}

/// Probe the live PipeWire quantum and rate via `pw-metadata -n settings`; falls
/// back to defaults (1024 at 48000) if the command fails or cannot be parsed.
pub fn probe_quantum<R: CommandRunner>(runner: &mut R) -> (q: PwQuantum)
    ensures
        exists|run: Invocation|
            final(runner).trace() == old(runner).trace().push(run) && #[trigger] asked(
                run,
                "pw-metadata"@,
                settings_args(),
            ) && q == quantum_told(run.answer),
{
    let args: [&str; 2] = ["-n", "settings"];
    let answer = runner.run("pw-metadata", &args);
    proof {
        assert(str_views((&args)@) =~= settings_args());
        let run = Invocation { program: "pw-metadata"@, args: str_views((&args)@), answer };
        assert(asked(run, "pw-metadata"@, settings_args()));
    }
    quantum_from(&answer)
}

// ── Laws ─────────────────────────────────────────────────────────────────────

/// The latency is no longer than it has to be: one millisecond less would be shorter than
/// two quanta, unless it is 50 ms already. A rate of zero counts as 48000.
pub proof fn latency_is_as_short_as_it_can_be(q: PwQuantum)
    ensures
        q.rate > 0 && q.latency_ms() > 50 ==> (q.latency_ms() - 1) * q.rate < 2000 * q.quantum,
        q.rate == 0 ==> q.latency_ms() == (PwQuantum { rate: 48_000, ..q }).latency_ms(),
        50 <= q.latency_ms() <= u32::MAX,
{
    let r = q.effective_rate();
    let n = 2000 * q.quantum + r - 1;
    let p = n / r;
    assert(p * r <= n) by (nonlinear_arith)
        requires
            p == n / r,
            r > 0,
            n >= 0,
    ;
    let ms = q.latency_ms();
    if q.rate > 0 && ms > 50 {
        assert(ms <= p);
        assert((ms - 1) * r <= p * r - r) by (nonlinear_arith)
            requires
                ms <= p,
                r > 0,
        ;
    }
}

/// The value of a setting stands between its opening mark and the next quote.
pub proof fn setting_values_are_read(a: Seq<char>, n: u32, b: Seq<char>)
    requires
        first_found(a + "value:'"@ + decimal(n as nat) + "'"@ + b, "value:'"@) == Some(
            a.len() as int,
        ),
    ensures
        setting_value(a + "value:'"@ + decimal(n as nat) + "'"@ + b) == Some(n as nat),
{
    let mark = "value:'"@;
    reveal_strlit("value:'");
    reveal_strlit("'");
    let d = decimal(n as nat);
    let line = a + mark + d + "'"@ + b;
    let after = d + "'"@ + b;
    assert(line.skip(a.len() as int + mark.len()) =~= after);
    digits_have_their_places(n as nat);
    assert forall|k: int| 0 <= k < d.len() implies after[k] != '\'' by {
        assert(after[k] == d[k]);
    }
    assert(after[d.len() as int] == '\'');
    let upto = match first_found(after, mark) {
        Some(m) => after.take(m),
        None => after,
    };
    occurrences_are_found(after, mark);
    if let Some(m) = first_found(after, mark) {
        assert(after.subrange(m, m + mark.len())[0] == 'v');
        assert(after[m] == 'v');
        if m <= d.len() {
            if m < d.len() {
                assert(0x30 <= d[m] as u32 <= 0x39);
            }
        }
        assert(m > d.len());
    }
    assert forall|k: int| 0 <= k < d.len() implies upto[k] != '\'' by {
        assert(upto[k] == after[k]);
    }
    assert(upto[d.len() as int] == '\'');
    lemma_first_at_is(upto, '\'', d.len() as int);
    assert(upto.take(d.len() as int) =~= d);
    assert(0x30 <= d[0] as u32 <= 0x39);
    assert(0x30 <= d[d.len() - 1] as u32 <= 0x39);
    assert(!white(d[0]) && !white(d.last()));
    trimming_takes_white_space_off_the_ends(d);
    written_numbers_read_back(n as nat, u32::MAX as nat);
}

/// A setting is read from the first line that names its key, at whatever position that
/// stands; where no line does, there is none.
pub proof fn settings_are_found_by_key(output: Seq<char>, key: Seq<char>)
    ensures
        forall|i: int|
            0 <= i < lines_of(output).len() && holds(
                #[trigger] lines_of(output)[i],
                "key:'"@ + key + "'"@,
            ) && (forall|k: int|
                0 <= k < i ==> !holds(#[trigger] lines_of(output)[k], "key:'"@ + key + "'"@))
                ==> setting_in(output, key) == setting_value(lines_of(output)[i]),
        (forall|k: int|
            0 <= k < lines_of(output).len() ==> !holds(
                #[trigger] lines_of(output)[k],
                "key:'"@ + key + "'"@,
            )) ==> setting_in(output, key) is None,
{
    let ls = lines_of(output);
    let pattern = "key:'"@ + key + "'"@;
    assert forall|i: int|
        0 <= i < ls.len() && holds(#[trigger] ls[i], pattern) && (forall|k: int|
            0 <= k < i ==> !holds(#[trigger] ls[k], pattern)) implies setting_in(output, key)
        == setting_value(ls[i]) by {
        lemma_setting_at(ls, 0, i, pattern);
    }
    if forall|k: int| 0 <= k < ls.len() ==> !holds(#[trigger] ls[k], pattern) {
        lemma_no_setting(ls, 0, pattern);
    }
}

proof fn lemma_setting_at(ls: Seq<Seq<char>>, from: int, i: int, pattern: Seq<char>)
    requires
        0 <= from <= i < ls.len(),
        holds(ls[i], pattern),
        forall|k: int| 0 <= k < i ==> !holds(#[trigger] ls[k], pattern),
    ensures
        setting_from(ls, from, pattern) == setting_value(ls[i]),
    decreases i - from,
{
    if from < i {
        lemma_setting_at(ls, from + 1, i, pattern);
    }
}

proof fn lemma_no_setting(ls: Seq<Seq<char>>, from: int, pattern: Seq<char>)
    requires
        0 <= from <= ls.len(),
        forall|k: int| 0 <= k < ls.len() ==> !holds(#[trigger] ls[k], pattern),
    ensures
        setting_from(ls, from, pattern) is None,
    decreases ls.len() - from,
{
    if from < ls.len() {
        lemma_no_setting(ls, from + 1, pattern);
    }
}

/// Quantum and rate are what the settings of these names say, each by itself; where one
/// is missing, or the query failed, it is 1024 or 48000.
pub proof fn settings_have_their_defaults(answer: Answer)
    ensures
        answer is Err || answer->Ok_0.status != 0 ==> quantum_told(answer).quantum == 1024
            && quantum_told(answer).rate == 48_000,
        answer is Ok && answer->Ok_0.status == 0 ==> {
            &&& setting_in(answer->Ok_0.stdout@, "clock.quantum"@) is None ==> quantum_told(
                answer,
            ).quantum == 1024
            &&& setting_in(answer->Ok_0.stdout@, "clock.rate"@) is None ==> quantum_told(answer).rate
                == 48_000
            &&& setting_in(answer->Ok_0.stdout@, "clock.quantum"@) is Some ==> quantum_told(
                answer,
            ).quantum == setting_in(answer->Ok_0.stdout@, "clock.quantum"@)->0 as u32
            &&& setting_in(answer->Ok_0.stdout@, "clock.rate"@) is Some ==> quantum_told(
                answer,
            ).rate == setting_in(answer->Ok_0.stdout@, "clock.rate"@)->0 as u32
        },
{
}

/// The settings are asked for by their name.
pub proof fn settings_are_asked_for_by_name()
    ensures
        settings_args() == seq!["-n"@, "settings"@],
{
}

} // verus!
