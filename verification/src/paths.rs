//! Where the programs keep their files.
use vstd::prelude::*;

verus! {

/// Name of the client's settings file.
pub const CONFIG_FILE_NAME: &'static str = "nymx-mail.json";

/// Name of the server's mixnet storage directory.
pub const STORAGE_DIR_NAME: &'static str = "nymx-mail";

/// The client's base directory, from what the environment shows: on
/// Windows, or when the settings file lies beside the program, the
/// program's directory; else the home directory when there is one.
pub fn choose_client_base_dir<P>(
    exe_dir: P,
    is_windows: bool,
    config_in_exe_dir: bool,
    home: Option<P>,
) -> (dir: P)
    ensures
        dir == (if is_windows || config_in_exe_dir {
            exe_dir
        } else {
            match home {
                Some(h) => h,
                None => exe_dir,
            }
        }),
{
    if is_windows {
        return exe_dir;
    }
    if config_in_exe_dir {
        return exe_dir;
    }
    match home {
        Some(h) => h,
        None => exe_dir,
    }
}

/// The server's base directory: on Windows the program's directory, else
/// the home directory when there is one.
pub fn choose_server_base_dir<P>(exe_dir: P, is_windows: bool, home: Option<P>) -> (dir: P)
    ensures
        dir == (if is_windows {
            exe_dir
        } else {
            match home {
                Some(h) => h,
                None => exe_dir,
            }
        }),
{
    if is_windows {
        return exe_dir;
    }
    match home {
        Some(h) => h,
        None => exe_dir,
    }
}

/// `name` is one plain path component: ASCII letters, digits, `-`, `_`
/// and `.`, not empty and not starting with `.`.
pub open spec fn is_plain_component(name: Seq<char>) -> bool {
    &&& name.len() > 0
    &&& name[0] != '.'
    &&& forall|k: int|
        0 <= k < name.len() ==> {
            let c = #[trigger] name[k];
            ('a' <= c <= 'z') || ('A' <= c <= 'Z') || ('0' <= c <= '9') || c == '-' || c == '_'
                || c == '.'
        }
}

/// `c` separates path components (`/`, and `\\` on Windows).
pub open spec fn is_separator(c: char) -> bool {
    c == '/' || c == '\\'
}

/// `base` starts with two separators and then `?` or `.`: the Windows
/// verbatim (`\\?\`) and device (`\\.\`) prefixes, which `PathBuf::push`
/// may rewrite there.
pub open spec fn has_verbatim_or_device_prefix(base: Seq<char>) -> bool {
    &&& base.len() >= 3
    &&& is_separator(base[0])
    &&& is_separator(base[1])
    &&& (base[2] == '?' || base[2] == '.')
}

/// `base` is a bare drive such as `C:`.
pub open spec fn is_bare_drive(base: Seq<char>) -> bool {
    &&& base.len() == 2
    &&& base[1] == ':'
    &&& (('a' <= base[0] <= 'z') || ('A' <= base[0] <= 'Z'))
}

/// Joining a component onto `base` puts a separator in between: `base` is
/// neither empty, nor ends with a separator, nor is a bare drive.
pub open spec fn needs_separator(base: Seq<char>) -> bool {
    base.len() > 0 && !is_separator(base.last()) && !is_bare_drive(base)
}

/// What holds of `joined`, the path `base` joined with the plain component
/// `name`, on every platform, for a `base` without a verbatim or device
/// prefix: it is `base`, at most one character, then `name`; that
/// character is a separator, and it is there whenever `base` needs one;
/// an empty `base` gives `name` alone.
pub open spec fn joins(joined: Seq<char>, base: Seq<char>, name: Seq<char>) -> bool {
    !has_verbatim_or_device_prefix(base) ==> {
        &&& exists|sep: Seq<char>|
            sep.len() <= 1 && (sep.len() == 1 ==> is_separator(sep[0])) && joined == base + sep
                + name
        &&& needs_separator(base) ==> exists|c: char|
            is_separator(c) && joined == base + seq![c] + name
        &&& base.len() == 0 ==> joined == name
    }
}

/// Joins the plain component `name` onto the path `base`.
///
/// Calls `std::path::Path::join`, then `to_string_lossy` (the joined path
/// is valid UTF-8, so it comes back unchanged). Trusted: `joins` holds.
/// For a `base` that starts with two separators and then `?` or `.`, on
/// Windows a verbatim or device path that `PathBuf::push` may normalize,
/// nothing is said; which separator is used (`/` on Unix, `\\` on Windows) and whether one
/// follows a base that ends with `\\` or is a bare drive depend on the
/// platform and are left unsaid.
#[verifier::external_body]
fn path_join(base: &str, name: &str) -> (joined: String)
    requires
        is_plain_component(name@),
    ensures
        joins(joined@, base@, name@),
{
    std::path::Path::new(base).join(name).to_string_lossy().into_owned()
}

/// The server's mixnet storage directory under `base_dir`.
pub fn get_storage_dir(base_dir: &str) -> (dir: String)
    ensures
        joins(dir@, base_dir@, STORAGE_DIR_NAME@),
{
    proof {
        reveal_strlit("nymx-mail");
    }
    path_join(base_dir, STORAGE_DIR_NAME)
}

/// The client's settings file under `base_dir`.
pub fn config_file_path(base_dir: &str) -> (path: String)
    ensures
        joins(path@, base_dir@, CONFIG_FILE_NAME@),
{
    proof {
        reveal_strlit("nymx-mail.json");
    }
    path_join(base_dir, CONFIG_FILE_NAME)
}

} // verus!
