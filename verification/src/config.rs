//! Settings that come from the environment, with defaults for an appliance. Each
//! function takes the value that was read.
use vstd::prelude::*;
use crate::text::{ends, starts, cat4, debug_str, debug_text, opt_str_view, opt_view, told};

verus! {

/// Default bind address: all interfaces, port 8080. A headless appliance is
/// controlled from other devices on the same network.
pub const DEFAULT_BIND: &'static str = "0.0.0.0:8080";

/// Default web-UI directory.
pub const DEFAULT_WEB_DIR: &'static str = "/usr/share/soundsync/webui";

/// Default Bluetooth name, where no name was chosen and `SOUNDSYNC_NAME` is not set.
pub const DEFAULT_NAME: &'static str = "SoundSync";

/// A value, or what stands in for it.
pub open spec fn value_or(value: Option<Seq<char>>, fallback: Seq<char>) -> Seq<char> {
    match value {
        Some(s) => s,
        None => fallback,
    }
}

/// The text of the bind address: `SOUNDSYNC_BIND`, or the default.
pub fn bind_text(env_val: Option<&str>) -> (text: String)
    ensures
        text@ == value_or(opt_str_view(env_val), DEFAULT_BIND@),
{
    match env_val {
        Some(s) => s.to_owned(),
        None => DEFAULT_BIND.to_owned(),
    }
}

/// The error for a bind address that is none.
pub open spec fn bind_error(text: Seq<char>, why: Seq<char>) -> Seq<char> {
    "SOUNDSYNC_BIND="@ + debug_text(text) + " is not a valid socket address: "@ + why
}

/// Resolve the bind address, given what reading [`bind_text`] as a socket address
/// gave. A failure is told with the value that was not one.
pub fn resolve_bind<A>(env_val: Option<&str>, read: Result<A, String>) -> (r: Result<A, String>)
    ensures
        told(r) == (match read {
            Ok(a) => Ok(a),
            Err(e) => Err(bind_error(value_or(opt_str_view(env_val), DEFAULT_BIND@), e@)),
        }),
{
    match read {
        Ok(a) => Ok(a),
        Err(e) => {
            let text = bind_text(env_val);
            Err(
                cat4(
                    "SOUNDSYNC_BIND=",
                    debug_str(text.as_str()).as_str(),
                    " is not a valid socket address: ",
                    e.as_str(),
                ),
            )
        },
    }
}

/// Resolve the web-UI directory from `SOUNDSYNC_WEB_DIR` or the default.
pub fn resolve_web_dir(env_val: Option<&str>) -> (dir: String)
    ensures
        dir@ == value_or(opt_str_view(env_val), DEFAULT_WEB_DIR@),
{
    match env_val {
        Some(s) => s.to_owned(),
        None => DEFAULT_WEB_DIR.to_owned(),
    }
}

/// The device name: the chosen one, else that of the environment, else the default.
/// An empty name counts as none.
pub open spec fn chosen_name(env_val: Option<Seq<char>>, persisted: Option<Seq<char>>) -> Seq<char> {
    if persisted is Some && persisted->0.len() > 0 {
        persisted->0
    } else if env_val is Some && env_val->0.len() > 0 {
        env_val->0
    } else {
        DEFAULT_NAME@
    }
}

/// Resolve the device name. Precedence, highest first:
/// 1. `persisted`, the name stored in `~/.config/soundsync/device-name`;
/// 2. `env_val`, the environment's `SOUNDSYNC_NAME`;
/// 3. [`DEFAULT_NAME`].
pub fn resolve_name(env_val: Option<&str>, persisted: Option<String>) -> (name: String)
    ensures
        name@ == chosen_name(opt_str_view(env_val), opt_view(persisted)),
{
    if let Some(p) = persisted {
        if !p.as_str().is_empty() {
            return p;
        }
    }
    if let Some(e) = env_val {
        if !e.is_empty() {
            return e.to_owned();
        }
    }
    DEFAULT_NAME.to_owned()
}

/// A device always has a name.
pub proof fn names_are_never_empty(env_val: Option<Seq<char>>, persisted: Option<Seq<char>>)
    ensures
        chosen_name(env_val, persisted).len() > 0,
{
    reveal_strlit("SoundSync");
}

/// A chosen name goes before that of the environment, and that before the default; one that
/// is empty counts as none.
pub proof fn chosen_names_go_first(env_val: Seq<char>, persisted: Seq<char>)
    ensures
        persisted.len() > 0 ==> chosen_name(Some(env_val), Some(persisted)) == persisted
            && chosen_name(None, Some(persisted)) == persisted,
        persisted.len() == 0 && env_val.len() > 0 ==> chosen_name(Some(env_val), Some(persisted))
            == env_val,
        env_val.len() > 0 ==> chosen_name(Some(env_val), None) == env_val,
        persisted.len() == 0 && env_val.len() == 0 ==> chosen_name(Some(env_val), Some(persisted))
            == "SoundSync"@,
        chosen_name(None, None) == "SoundSync"@,
{
}

/// What the environment says is taken as it is, and its default only where it says nothing.
pub proof fn settings_go_before_defaults(value: Seq<char>, fallback: Seq<char>)
    ensures
        value_or(Some(value), fallback) == value,
        value_or(None, fallback) == fallback,
        DEFAULT_BIND@ == "0.0.0.0:8080"@,
        DEFAULT_WEB_DIR@ == "/usr/share/soundsync/webui"@,
{
}

/// The error names the value that was not an address, and why.
pub proof fn bind_errors_tell_the_value(text: Seq<char>, why: Seq<char>)
    ensures
        starts(bind_error(text, why), "SOUNDSYNC_BIND="@ + debug_text(text)),
        ends(bind_error(text, why), why),
{
    let e = bind_error(text, why);
    let head = "SOUNDSYNC_BIND="@ + debug_text(text);
    assert(e.take(head.len() as int) =~= head);
    assert(e.skip(e.len() - why.len()) =~= why);
}

} // verus!
