//! Small JSON state files under `~/.config/soundsync/`. Loading gives nothing where a
//! file is missing or is no JSON; saving replaces the file as a whole.
use vstd::prelude::*;
use crate::json::{from_text, json_parsed, json_pretty, opt_data, readable, to_pretty_text, Json, JsonData, MAX_DEPTH};
use crate::sys::fs::{Fs, FsOp};
use crate::text::{cat2, cat3, opt_str_view};

verus! {

/// The home directory where none is told.
pub const FALLBACK_HOME: &'static str = "/root";

/// The directory of the state files.
pub open spec fn dir_of(home: Seq<char>) -> Seq<char> {
    home + "/.config/soundsync"@
}

/// Base directory of per-user configuration, e.g. `/home/alice/.config/soundsync`.
pub fn config_dir(home: &str) -> (dir: String)
    ensures
        dir@ == dir_of(home@),
{
    cat2(home, "/.config/soundsync")
}

/// The base directory for the value of `HOME`, or for `/root` where it is not set.
pub fn config_dir_default(home: Option<&str>) -> (dir: String)
    ensures
        dir@ == dir_of(crate::config::value_or(opt_str_view(home), FALLBACK_HOME@)),
{
    match home {
        Some(home) => config_dir(home),
        None => config_dir(FALLBACK_HOME),
    }
}

/// What the contents of a state file say.
pub open spec fn state_told(answer: Result<String, String>) -> Option<JsonData> {
    match answer {
        Ok(s) => json_parsed(s@),
        Err(_) => None,
    }
}

/// Load `home/.config/soundsync/filename`. A file that is missing, cannot be read or
/// is no JSON gives `None`, for which the caller has its defaults.
pub fn load_json<F: Fs>(fs: &mut F, home: &str, filename: &str) -> (value: Option<Json>)
    ensures
        exists|answer: Result<String, String>|
            final(fs).ops() == old(fs).ops().push(
                (FsOp::Read { path: dir_of(home@) + "/"@ + filename@, answer }),
            ) && opt_data(value) == #[trigger] state_told(answer),
{
    let path = cat3(config_dir(home).as_str(), "/", filename);
    let answer = fs.read_to_string(path.as_str());
    let value = match &answer {
        Ok(s) => from_text(s.as_str()),
        Err(_) => None,
    };
    assert(opt_data(value) == state_told(answer));
    value
}

/// Whether this write, and this result, save a value: as indented JSON under the
/// configuration directory. It reads back as the value, where that is possible at all.
pub open spec fn is_saving(
    op: FsOp,
    home: Seq<char>,
    name: Seq<char>,
    value: JsonData,
    r: Result<(), String>,
) -> bool {
    &&& op matches FsOp::Write { dir, filename, contents, answer }
    &&& dir == dir_of(home)
    &&& filename == name
    &&& contents == json_pretty(value)
    &&& readable(value, MAX_DEPTH as nat) ==> json_parsed(contents) == Some(value)
    &&& r == answer
}

/// Save a value as `home/.config/soundsync/filename`, as indented JSON.
pub fn save_json<F: Fs>(fs: &mut F, home: &str, filename: &str, value: &Json) -> (r: Result<
    (),
    String,
>)
    ensures
        exists|op: FsOp|
            final(fs).ops() == old(fs).ops().push(op) && #[trigger] is_saving(
                op,
                home@,
                filename@,
                value@,
                r,
            ),
{
    let dir = config_dir(home);
    match to_pretty_text(value) {
        Ok(contents) => {
            let r = fs.write_atomic(dir.as_str(), filename, contents.as_str());
            proof {
                let op = FsOp::Write {
                    dir: dir@,
                    filename: filename@,
                    contents: contents@,
                    answer: r,
                };
                assert(is_saving(op, home@, filename@, value@, r));
            }
            r
        },
        Err(e) => Err(e),
    }
}

/// What was saved is what a load of the saved contents tells, for every value whose
/// fractions are read as they are written, and that is nested no deeper than reading
/// goes.
pub proof fn saved_state_is_loaded(
    op: FsOp,
    home: Seq<char>,
    name: Seq<char>,
    value: JsonData,
    r: Result<(), String>,
    contents: String,
)
    requires
        is_saving(op, home, name, value, r),
        contents@ == op->contents,
    ensures
        readable(value, MAX_DEPTH as nat) ==> state_told(Ok(contents)) == Some(value),
{
}

/// State is saved where it is loaded from: under the home directory, in the file of its
/// name; what cannot be read tells nothing.
pub proof fn state_is_kept_in_one_place(
    op: FsOp,
    home: Seq<char>,
    name: Seq<char>,
    value: JsonData,
    r: Result<(), String>,
    answer: Result<String, String>,
)
    requires
        is_saving(op, home, name, value, r),
    ensures
        op->dir == home + "/.config/soundsync"@,
        op->dir + "/"@ + op->filename == dir_of(home) + "/"@ + name,
        op->contents == json_pretty(value),
        r == op->Write_answer,
        answer is Err ==> state_told(answer) is None,
        answer matches Ok(s) ==> state_told(answer) == json_parsed(s@),
{
}

} // verus!
