//! The downloads directory as a setting: what is shown for it and what may be saved.

use vstd::prelude::*;
use crate::paths::{extended, push_relative};
use crate::text::{blank, is_blank, text_option, text_result};

verus! {

/// The directory shown where none is saved: `Downloads/Roms` under the home directory. It
/// fails where there is no home directory.
pub open spec fn default_shown_dir(home: Option<Seq<char>>) -> Result<Seq<char>, Seq<char>> {
    match home {
        Some(h) => Ok(extended(extended(h, "Downloads"@), "Roms"@)),
        None => Err("..."@),
    }
}

/// The directory shown as the setting: the saved one, unless it is missing or blank.
pub open spec fn shown_dir(saved: Option<Seq<char>>, home: Option<Seq<char>>) -> Result<
    Seq<char>,
    Seq<char>,
> {
    match saved {
        Some(dir) => if blank(dir) {
            default_shown_dir(home)
        } else {
            Ok(dir)
        },
        None => default_shown_dir(home),
    }
}

/// Computes the directory shown where none is saved.
pub fn default_download_dir(home: Option<String>) -> (r: Result<String, String>)
    ensures
        text_result(r) == default_shown_dir(text_option(home)),
{
    match home {
        Some(h) => {
            let mut dir: String = h;
            push_relative(&mut dir, "Downloads");
            push_relative(&mut dir, "Roms");
            Ok(dir)
        },
        None => Err("...".to_owned()),
    }
}

/// Computes the directory to show as the setting, from the saved value and the home
/// directory.
pub fn get_download_dir(saved: Option<String>, home: Option<String>) -> (r: Result<String, String>)
    ensures
        text_result(r) == shown_dir(text_option(saved), text_option(home)),
{
    match saved {
        Some(dir) => {
            if is_blank(dir.as_str()) {
                default_download_dir(home)
            } else {
                Ok(dir)
            }
        },
        None => default_download_dir(home),
    }
}

/// Accepts a directory to save as the setting: any that is not blank.
pub fn set_download_dir(path: &str) -> (r: Result<(), String>)
    ensures
        r is Err <==> blank(path@),
        r matches Err(message) ==> message@ == "Path cannot be empty"@,
{
    if is_blank(path) {
        Err("Path cannot be empty".to_owned())
    } else {
        Ok(())
    }
}

} // verus!
