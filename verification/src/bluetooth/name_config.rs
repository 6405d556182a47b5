//! The persisted Bluetooth device name.
use vstd::prelude::*;
use crate::config::value_or;
use crate::config_store::FALLBACK_HOME;
use crate::state::DEFAULT_DEVICE_NAME;
use crate::sys::fs::{Fs, FsOp};
use crate::text::{occurrences_are_found, trimming_takes_white_space_off_the_ends, white, cat2, chars_of, last_found, opt_str_view, rfind, string_of, trim, trimmed};

verus! {

/// The file that holds the chosen name.
pub open spec fn name_path(home: Seq<char>) -> Seq<char> {
    home + "/.config/soundsync/device-name"@
}

/// Path to the persisted device-name file.
pub fn device_name_path(home: &str) -> (path: String)
    ensures
        path@ == name_path(home@),
{
    cat2(home, "/.config/soundsync/device-name")
}

/// The name that the contents of the file mean: the trimmed text, or the default
/// where there is no file or no text in it.
pub open spec fn name_in(contents: Result<String, String>) -> Seq<char> {
    match contents {
        Ok(s) => if trimmed(s@).len() == 0 {
            DEFAULT_DEVICE_NAME@
        } else {
            trimmed(s@)
        },
        Err(_) => DEFAULT_DEVICE_NAME@,
    }
}

/// The name that the contents of the file mean.
pub fn name_from(contents: Result<String, String>) -> (name: String)
    ensures
        name@ == name_in(contents),
        name@.len() > 0,
{
    proof {
        reveal_strlit("SoundSync");
    }
    match contents {
        Ok(s) => {
            let name = trim(s.as_str());
            if name.as_str().is_empty() {
                DEFAULT_DEVICE_NAME.to_owned()
            } else {
                name
            }
        },
        Err(_) => DEFAULT_DEVICE_NAME.to_owned(),
    }
}

/// Load the device name from an explicit path, falling back to the default.
pub fn load_device_name_from<F: Fs>(fs: &mut F, path: &str) -> (name: String)
    ensures
        exists|answer: Result<String, String>|
            final(fs).ops() == old(fs).ops().push((FsOp::Read { path: path@, answer })) && name@
                == #[trigger] name_in(answer),
{
    let answer = fs.read_to_string(path);
    name_from(answer)
}

/// Load the persisted device name for the value of `HOME` (`/root` where it is not
/// set), falling back to the default.
pub fn load_device_name<F: Fs>(fs: &mut F, home: Option<&str>) -> (name: String)
    ensures
        exists|answer: Result<String, String>|
            final(fs).ops() == old(fs).ops().push(
                (FsOp::Read { path: name_path(home_of(opt_str_view(home))), answer }),
            ) && name@ == #[trigger] name_in(answer),
{
    let path = match home {
        Some(home) => device_name_path(home),
        None => device_name_path(FALLBACK_HOME),
    };
    load_device_name_from(fs, path.as_str())
}

/// The home directory for the value of `HOME`.
pub open spec fn home_of(home: Option<Seq<char>>) -> Seq<char> {
    value_or(home, FALLBACK_HOME@)
}

/// The directory and the file name of a path: what stands before and after its last
/// slash. A path without a slash is in the current directory.
pub open spec fn place_of(path: Seq<char>) -> (Seq<char>, Seq<char>) {
    match last_found(path, "/"@) {
        Some(i) => if i == 0 {
            ("/"@, path.skip(1))
        } else {
            (path.take(i), path.skip(i + 1))
        },
        None => ("."@, path),
    }
}

/// Whether this write, and this result, save a name.
pub open spec fn is_name_saving(op: FsOp, path: Seq<char>, name: Seq<char>, r: Result<(), String>) -> bool {
    &&& op matches FsOp::Write { dir, filename, contents, answer }
    &&& (dir, filename) == place_of(path)
    &&& contents == name
    &&& r == answer
}

/// Persist the device name to an explicit path (creates the directory if absent).
pub fn save_device_name_to<F: Fs>(fs: &mut F, path: &str, name: &str) -> (r: Result<(), String>)
    ensures
        exists|op: FsOp|
            final(fs).ops() == old(fs).ops().push(op) && #[trigger] is_name_saving(
                op,
                path@,
                name@,
                r,
            ),
{
    proof {
        reveal_strlit("/");
    }
    let cs = chars_of(path);
    let n: usize = cs.len();
    let (dir, filename) = match rfind(path, "/") {
        Some(i) => if i == 0 {
            ("/".to_owned(), string_of(&cs, 1, n))
        } else {
            (string_of(&cs, 0, i), string_of(&cs, i + 1, n))
        },
        None => (".".to_owned(), path.to_owned()),
    };
    proof {
        let (d, f) = place_of(path@);
        assert(dir@ =~= d);
        assert(filename@ =~= f);
    }
    let r = fs.write_atomic(dir.as_str(), filename.as_str(), name);
    proof {
        let op = FsOp::Write { dir: dir@, filename: filename@, contents: name@, answer: r };
        assert(is_name_saving(op, path@, name@, r));
    }
    r
}

/// Persist the device name (creates the configuration directory if absent).
pub fn save_device_name<F: Fs>(fs: &mut F, home: Option<&str>, name: &str) -> (r: Result<
    (),
    String,
>)
    ensures
        exists|op: FsOp|
            final(fs).ops() == old(fs).ops().push(op) && #[trigger] is_name_saving(
                op,
                name_path(home_of(opt_str_view(home))),
                name@,
                r,
            ),
{
    let path = match home {
        Some(home) => device_name_path(home),
        None => device_name_path(FALLBACK_HOME),
    };
    assert(path@ == name_path(home_of(opt_str_view(home))));
    save_device_name_to(fs, path.as_str(), name)
}

/// A saved name that neither starts nor ends with white space is loaded as it
/// was saved: a load that is told what a save wrote gives the name back.
pub proof fn saved_names_are_loaded(
    op: FsOp,
    path: Seq<char>,
    name: Seq<char>,
    r: Result<(), String>,
    contents: String,
)
    requires
        is_name_saving(op, path, name, r),
        contents@ == op->contents,
        name.len() > 0,
        trimmed(name) == name,
    ensures
        name_in(Ok(contents)) == name,
{
}

/// Directory and file name make up the path again, and the file name holds no slash.
pub proof fn places_make_up_the_path(path: Seq<char>)
    ensures
        ({
            let (dir, name) = place_of(path);
            &&& !name.contains('/')
            &&& path.contains('/') && path.len() > 0 && path[0] != '/' ==> path == dir + "/"@ + name
            &&& path.contains('/') && dir != "/"@ ==> path == dir + "/"@ + name
            &&& path.contains('/') && dir == "/"@ ==> path == dir + name || path == dir + "/"@ + name
            &&& !path.contains('/') ==> dir == "."@ && name == path
        }),
{
    reveal_strlit("/");
    let slash = "/"@;
    assert(slash =~= seq!['/']);
    occurrences_are_found(path, slash);
    let (dir, name) = place_of(path);
    if path.contains('/') {
        let k = choose|k: int| 0 <= k < path.len() && path[k] == '/';
        assert(path.subrange(k, k + 1) =~= slash);
        assert(last_found(path, slash) is Some);
    }
    match last_found(path, slash) {
        Some(i) => {
            assert(path.subrange(i, i + 1)[0] == '/');
            if name.contains('/') {
                let k = choose|k: int| 0 <= k < name.len() && name[k] == '/';
                assert(path[i + 1 + k] == '/');
                assert(path.subrange(i + 1 + k, i + 1 + k + 1) =~= slash);
            }
            assert(path =~= path.take(i) + slash + path.skip(i + 1));
            if i == 0 {
                assert(path =~= slash + path.skip(1));
            }
        },
        None => {},
    }
}

/// The name is the text of the file without the white space around it, and the default
/// where there is no file or no other text in it; it is kept in the home directory.
pub proof fn names_are_read_from_the_file(contents: Result<String, String>, home: Seq<char>)
    ensures
        contents is Err ==> name_in(contents) == "SoundSync"@,
        contents matches Ok(s) ==> {
            &&& (forall|k: int| 0 <= k < s@.len() ==> white(#[trigger] s@[k])) ==> name_in(contents)
                == "SoundSync"@
            &&& s@.len() > 0 && !white(s@[0]) && !white(s@.last()) ==> name_in(contents) == s@
            &&& (exists|k: int| 0 <= k < s@.len() && !white(#[trigger] s@[k])) ==> name_in(contents)
                == trimmed(s@)
        },
        home_of(Some(home)) == home,
        home_of(None) == "/root"@,
        name_path(home) == home + "/.config/soundsync/device-name"@,
{
    if let Ok(s) = contents {
        trimming_takes_white_space_off_the_ends(s@);
    }
}

} // verus!
