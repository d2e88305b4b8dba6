//! Where the program keeps its files: the data folder, the settings file and its
//! older location, themes and logs. The platform supplies the folders it knows
//! (the environment override, the user's configuration folder, the executable's
//! folder); these rules compose them.

use vstd::prelude::*;
use crate::text::{chars_of, push_str, string_from};

verus! {

/// The environment variable that moves the data folder.
pub const DATA_DIR_ENV: &'static str = "GPUI_CONVENIENCE_TOOLS_DATA_DIR";
pub const SETTINGS_FILE_NAME: &'static str = "settings.json";
pub const LEGACY_CONFIG_FILE_NAME: &'static str = "config.json";
pub const APP_DIR_NAME: &'static str = "gpui-convenience-tools";

/// A bare drive such as `C:`, which Windows (separator `\\`) joins without a
/// separator: `C:` and `name` give `C:name`, the name in that drive's current folder.
pub open spec fn bare_drive(base: Seq<char>, sep: char) -> bool {
    sep == '\\' && base.len() == 2 && (('a' <= base[0] && base[0] <= 'z') || ('A' <= base[0] && base[0] <= 'Z'))
        && base[1] == ':'
}

/// `name` inside folder `base`, a separator put between them unless `base` is
/// empty, already ends with one, or is a bare drive.
pub open spec fn joined(base: Seq<char>, name: Seq<char>, sep: char) -> Seq<char> {
    if base.len() == 0 || base.last() == '/' || base.last() == sep || bare_drive(base, sep) {
        base + name
    } else {
        base + seq![sep] + name
    }
}

pub fn join_path(base: &str, name: &str, sep: char) -> (r: String)
    ensures
        r@ == joined(base@, name@, sep),
{
    let b = chars_of(base);
    let mut v = chars_of(base);
    let drive = sep == '\\' && b.len() == 2 && (('a' <= b[0] && b[0] <= 'z') || ('A' <= b[0] && b[0] <= 'Z'))
        && b[1] == ':';
    if !(b.len() == 0 || b[b.len() - 1] == '/' || b[b.len() - 1] == sep || drive) {
        v.push(sep);
    }
    push_str(&mut v, name);
    string_from(v.as_slice())
}

/// The data folder: the override when it is set and not empty, else the program's
/// folder inside the user's configuration folder (`.` when there is none).
pub open spec fn data_dir_of(env_override: Option<Seq<char>>, config_dir: Option<Seq<char>>, sep: char) -> Seq<char> {
    match env_override {
        Some(d) if d.len() > 0 => d,
        _ => joined(
            match config_dir {
                Some(c) => c,
                None => "."@,
            },
            APP_DIR_NAME@,
            sep,
        ),
    }
}

pub fn data_dir(env_override: Option<&str>, config_dir: Option<&str>, sep: char) -> (r: String)
    ensures
        r@ == data_dir_of(
            match env_override {
                Some(d) => Some(d@),
                None => None,
            },
            match config_dir {
                Some(c) => Some(c@),
                None => None,
            },
            sep,
        ),
{
    if let Some(d) = env_override {
        if !d.is_empty() {
            return crate::text::owned(d);
        }
    }
    let base = match config_dir {
        Some(c) => c,
        None => ".",
    };
    join_path(base, APP_DIR_NAME, sep)
}

/// The settings file people can find and edit: the older `config.json` in the
/// data folder when the data folder is overridden, else `settings.json` next to
/// the executable, or in the data folder when the executable's folder is unknown.
pub fn config_path(data_dir: &str, exe_dir: Option<&str>, data_dir_overridden: bool, sep: char) -> (r: String)
    ensures
        data_dir_overridden ==> r@ == joined(data_dir@, LEGACY_CONFIG_FILE_NAME@, sep),
        !data_dir_overridden ==> r@ == match exe_dir {
            Some(e) => joined(e@, SETTINGS_FILE_NAME@, sep),
            None => joined(data_dir@, SETTINGS_FILE_NAME@, sep),
        },
{
    if data_dir_overridden {
        return join_path(data_dir, LEGACY_CONFIG_FILE_NAME, sep);
    }
    match exe_dir {
        Some(e) => join_path(e, SETTINGS_FILE_NAME, sep),
        None => join_path(data_dir, SETTINGS_FILE_NAME, sep),
    }
}

/// The older settings file in the data folder.
pub fn fallback_config_path(data_dir: &str, sep: char) -> (r: String)
    ensures
        r@ == joined(data_dir@, LEGACY_CONFIG_FILE_NAME@, sep),
{
    join_path(data_dir, LEGACY_CONFIG_FILE_NAME, sep)
}

pub fn themes_path(data_dir: &str, sep: char) -> (r: String)
    ensures
        r@ == joined(data_dir@, "themes"@, sep),
{
    join_path(data_dir, "themes", sep)
}

/// The folder of the rolling log files.
pub fn logs_path(data_dir: &str, sep: char) -> (r: String)
    ensures
        r@ == joined(data_dir@, "logs"@, sep),
{
    join_path(data_dir, "logs", sep)
}

/// The log file being written.
pub fn current_log_file(logs_dir: &str, sep: char) -> (r: String)
    ensures
        r@ == joined(logs_dir@, "app.log"@, sep),
{
    join_path(logs_dir, "app.log", sep)
}

/// Which settings file is read and written: the primary one, unless the data
/// folder is not overridden, the older file exists, and either the primary one
/// does not or the older one was modified later. Returns whether the older file
/// is used. A modification time that cannot be read counts as earlier than any.
pub fn use_fallback_config(
    data_dir_overridden: bool,
    fallback_exists: bool,
    primary_exists: bool,
    primary_modified: Option<i128>,
    fallback_modified: Option<i128>,
) -> (r: bool)
    ensures
        r == (!data_dir_overridden && fallback_exists && (!primary_exists || match (fallback_modified, primary_modified) {
            (Some(f), Some(p)) => f > p,
            (Some(_), None) => true,
            (None, _) => false,
        })),
{
    if data_dir_overridden || !fallback_exists {
        return false;
    }
    if !primary_exists {
        return true;
    }
    match (fallback_modified, primary_modified) {
        (Some(f), Some(p)) => f > p,
        (Some(_), None) => true,
        (None, _) => false,
    }
}

} // verus!
