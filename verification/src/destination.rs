//! Where downloads go: an explicit directory, else the saved setting, else a default under
//! the home directory.

use vstd::prelude::*;
use crate::paths::{extended, push_relative};
use crate::text::{blank, is_blank, text_option, text_result};

verus! {

/// The default downloads directory: `.rusty-roms/downloads` under the home directory. It
/// fails where there is no home directory.
pub open spec fn default_dir(home: Option<Seq<char>>) -> Result<Seq<char>, Seq<char>> {
    match home {
        Some(h) => Ok(extended(extended(h, ".rusty-roms"@), "downloads"@)),
        None => Err("..."@),
    }
}

/// A directory that is given and not blank.
pub open spec fn given(dir: Option<Seq<char>>) -> bool {
    dir matches Some(text) && !blank(text)
}

/// The downloads directory of a job. An explicit directory wins where it is given and not
/// blank; else the saved setting is taken, where that is given and not blank; else the
/// default.
pub open spec fn resolved_dir(
    override_dir: Option<Seq<char>>,
    saved: Option<Seq<char>>,
    home: Option<Seq<char>>,
) -> Result<Seq<char>, Seq<char>> {
    if given(override_dir) {
        Ok(override_dir->0)
    } else if given(saved) {
        Ok(saved->0)
    } else {
        default_dir(home)
    }
}

/// Computes the default downloads directory under the home directory, if there is one.
pub fn default_download_dir(home: Option<String>) -> (r: Result<String, String>)
    ensures
        text_result(r) == default_dir(text_option(home)),
{
    match home {
        Some(h) => {
            let mut dir: String = h;
            push_relative(&mut dir, ".rusty-roms");
            push_relative(&mut dir, "downloads");
            Ok(dir)
        },
        None => Err("...".to_owned()),
    }
}

/// Whether the saved setting has a say: it has none where an explicit directory is given
/// and not blank.
pub fn needs_saved_setting(override_dir: &Option<String>) -> (b: bool)
    ensures
        b == !given(text_option(*override_dir)),
{
    match override_dir {
        Some(dir) => is_blank(dir.as_str()),
        None => true,
    }
}

/// Resolves the downloads directory of a job from the explicit directory, the saved
/// setting and the home directory. A blank directory counts as none, so the resolution
/// fails only where neither is given and there is no home directory.
pub fn resolve_download_dir(
    override_dir: Option<String>,
    saved: Option<String>,
    home: Option<String>,
) -> (r: Result<String, String>)
    ensures
        text_result(r) == resolved_dir(
            text_option(override_dir),
            text_option(saved),
            text_option(home),
        ),
{
    match override_dir {
        Some(dir) => {
            if !is_blank(dir.as_str()) {
                return Ok(dir);
            }
        },
        None => {},
    }
    match saved {
        Some(dir) => {
            if !is_blank(dir.as_str()) {
                return Ok(dir);
            }
        },
        None => {},
    }
    default_download_dir(home)
}

} // verus!
