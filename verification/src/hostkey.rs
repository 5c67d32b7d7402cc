//! Which host keys a server loads, and where it keeps one that it makes.

use crate::error::{Error, ErrorView};
use crate::paths::{find_parent, join_path, parent, placed, PathStyle};
use crate::text::{copy_texts, option_text, texts};
use vstd::prelude::*;

verus! {

/// Where a host key is kept where none was chosen.
pub open spec fn default_key_path(style: PathStyle, home: Seq<char>) -> Seq<char> {
    placed(style, placed(style, home, ".sshdt"@), "host_ed25519"@)
}

/// The failure where there is no home directory to keep a key in.
pub open spec fn no_home() -> ErrorView {
    ErrorView::HostKeyGenerate("could not determine the home directory"@)
}

/// Where a host key is kept where none was chosen: `.sshdt/host_ed25519` in the home
/// directory.
pub fn default_host_key_path(style: PathStyle, home: Option<String>) -> (r: Result<String, Error>)
    ensures
        home matches Some(h) ==> (r matches Ok(p) && p@ == default_key_path(style, h@)),
        home is None ==> (r matches Err(e) && e@ == no_home()),
{
    match home {
        Some(h) => Ok(
            join_path(style, join_path(style, h.as_str(), ".sshdt").as_str(), "host_ed25519"),
        ),
        None => Err(Error::HostKeyGenerate("could not determine the home directory".to_owned())),
    }
}

/// The host keys that a server loads: those that were chosen, or else its own.
pub open spec fn key_paths(
    style: PathStyle,
    chosen: Seq<Seq<char>>,
    home: Option<Seq<char>>,
) -> Result<Seq<Seq<char>>, ErrorView> {
    if chosen.len() > 0 {
        Ok(chosen)
    } else {
        match home {
            Some(h) => Ok(seq![default_key_path(style, h)]),
            None => Err(no_home()),
        }
    }
}

/// The host keys that a server loads: those that were chosen, or else its own.
pub fn load_or_generate(style: PathStyle, paths: &Vec<String>, home: Option<String>) -> (r: Result<
    Vec<String>,
    Error,
>)
    ensures
        r is Ok <==> key_paths(style, texts(paths@), option_text(home)) is Ok,
        r matches Ok(v) ==> key_paths(style, texts(paths@), option_text(home)) == Ok::<
            Seq<Seq<char>>,
            ErrorView,
        >(texts(v@)) && v@.len() > 0,
        r matches Err(e) ==> key_paths(style, texts(paths@), option_text(home)) == Err::<
            Seq<Seq<char>>,
            ErrorView,
        >(e@),
{
    if paths.len() > 0 {
        return Ok(copy_texts(paths));
    }
    match default_host_key_path(style, home) {
        Err(e) => Err(e),
        Ok(p) => {
            let mut v: Vec<String> = Vec::new();
            v.push(p);
            assert(texts(v@) =~= seq![p@]);
            Ok(v)
        },
    }
}

/// What to do for one host key.
#[derive(Debug)]
pub enum KeyStep {
    /// Load it.
    Load,
    /// Make it and keep it, in this directory where one has to be made for it.
    Generate { directory: Option<String> },
}

/// What to do for the host key at `path`, which is there or not: a key that is there is
/// loaded, and one that is not is made, so that it is there the next time.
pub fn load_or_generate_one(style: PathStyle, path: &str, exists: bool) -> (r: KeyStep)
    ensures
        exists ==> r is Load,
        !exists ==> (r matches KeyStep::Generate { directory } && option_text(directory) == (
        match parent(style, path@) {
            Some(d) => if d.len() > 0 {
                Some(d)
            } else {
                None
            },
            None => None,
        })),
{
    if exists {
        return KeyStep::Load;
    }
    match find_parent(style, path) {
        Some(d) => if d.as_str().is_empty() {
            KeyStep::Generate { directory: None }
        } else {
            KeyStep::Generate { directory: Some(d) }
        },
        None => KeyStep::Generate { directory: None },
    }
}

/// The permissions to give the directory of a key: its owner alone may use it. On
/// Windows they are left as they are.
pub fn set_dir_private(style: PathStyle) -> (r: Option<u32>)
    ensures
        r == (if style == PathStyle::Posix {
            Some(0o700u32)
        } else {
            None
        }),
{
    match style {
        PathStyle::Posix => Some(0o700),
        PathStyle::Windows => None,
    }
}

/// A server loads exactly the host keys that were chosen, in their order. Where none was, it
/// loads `.sshdt/host_ed25519` of the home directory, and without one it cannot.
pub proof fn which_host_keys_are_loaded(
    style: PathStyle,
    chosen: Seq<Seq<char>>,
    home: Option<Seq<char>>,
)
    ensures
        chosen.len() > 0 ==> key_paths(style, chosen, home) == Ok::<Seq<Seq<char>>, ErrorView>(
            chosen,
        ),
        chosen.len() == 0 && home is Some ==> key_paths(style, chosen, home) == Ok::<
            Seq<Seq<char>>,
            ErrorView,
        >(seq![placed(style, placed(style, home->0, ".sshdt"@), "host_ed25519"@)]),
        chosen.len() == 0 && home is None ==> key_paths(style, chosen, home) == Err::<
            Seq<Seq<char>>,
            ErrorView,
        >(ErrorView::HostKeyGenerate("could not determine the home directory"@)),
        home matches Some(h) ==> default_key_path(style, h) == placed(
            style,
            placed(style, h, ".sshdt"@),
            "host_ed25519"@,
        ),
{
}

} // verus!
