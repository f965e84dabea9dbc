//! The pre-push hook: this tool's part of the hook script sits between two
//! marker lines, so it can be added to, refreshed in, or removed from a
//! script that holds other hooks too.

use vstd::prelude::*;
use crate::text::{
    chars_of, contains_text, has_prefix, has_text, join_with, joined, lines_of, split_lines,
    starts_with, trim, trim_of, views,
};

verus! {

/// The line that opens this tool's section.
pub const HOOK_START_MARKER: &'static str = "# === yewpb-hook-start ===";

/// The line that closes this tool's section.
pub const HOOK_END_MARKER: &'static str = "# === yewpb-hook-end ===";

/// The shebang line put in front of a script that has none.
pub const SHEBANG: &'static str = "#!/bin/sh";

/// The lines kept when the marked sections are dropped, and whether the
/// last line read leaves us inside a section. A line holding the start
/// marker opens a section, one holding the end marker closes it; both
/// marker lines are dropped.
pub open spec fn kept_lines(ls: Seq<Seq<char>>) -> (Seq<Seq<char>>, bool)
    decreases ls.len(),
{
    if ls.len() == 0 {
        (Seq::empty(), false)
    } else {
        let (kept, inside) = kept_lines(ls.drop_last());
        let l = ls.last();
        if contains_text(l, HOOK_START_MARKER@) {
            (kept, true)
        } else if contains_text(l, HOOK_END_MARKER@) {
            (kept, false)
        } else if inside {
            (kept, true)
        } else {
            (kept.push(l), false)
        }
    }
}

/// The script without this tool's sections, lines joined by `\n`.
pub open spec fn without_section(content: Seq<char>) -> Seq<char> {
    joined(kept_lines(lines_of(content)).0, "\n"@)
}

/// This tool's section around the script body `script`.
pub open spec fn section_of(script: Seq<char>) -> Seq<char> {
    HOOK_START_MARKER@ + "\n"@ + trim_of(script) + "\n"@ + HOOK_END_MARKER@
}

/// Whether a script holds this tool's section.
pub open spec fn is_own_hook(content: Seq<char>) -> bool {
    contains_text(content, HOOK_START_MARKER@)
}

/// `body` behind a shebang line and an empty line.
pub open spec fn behind_shebang(body: Seq<char>) -> Seq<char> {
    SHEBANG@ + "\n\n"@ + body
}

/// The script after installing `section` into `existing` (none when there
/// is no hook yet): an earlier section of ours is replaced, other content
/// is kept in front, and a shebang is added when the kept content has none.
pub open spec fn installed_hook(existing: Option<Seq<char>>, section: Seq<char>) -> Seq<char> {
    match existing {
        None => behind_shebang(section),
        Some(text) => if is_own_hook(text) {
            let rest = trim_of(without_section(text));
            if rest.len() == 0 {
                behind_shebang(section)
            } else if starts_with(rest, "#!"@) {
                rest + "\n\n"@ + section
            } else {
                behind_shebang(rest + "\n\n"@ + section)
            }
        } else if starts_with(text, "#!"@) {
            trim_of(text) + "\n\n"@ + section
        } else {
            behind_shebang(trim_of(text) + "\n\n"@ + section)
        },
    }
}

/// Why a hook cannot be uninstalled.
pub enum HookError {
    /// The hook holds no section of this tool; it is left alone.
    NotOurs,
}

/// The script after uninstalling this tool's section from `content`: none
/// when nothing else is left (the file goes), the rest with a final newline
/// otherwise.
pub open spec fn uninstalled_hook(content: Seq<char>) -> Result<Option<Seq<char>>, HookError> {
    if !is_own_hook(content) {
        Err(HookError::NotOurs)
    } else {
        let rest = trim_of(without_section(content));
        if rest.len() == 0 {
            Ok(None)
        } else {
            Ok(Some(rest + "\n"@))
        }
    }
}

/// Whether `content` starts with `#!`.
pub fn has_valid_shebang(content: &str) -> (r: bool)
    ensures
        r == starts_with(content@, "#!"@),
{
    has_prefix(&chars_of(content), &chars_of("#!"))
}

/// Whether the hook script `content` holds this tool's section.
pub fn is_push_backup_hook(content: &str) -> (r: bool)
    ensures
        r == is_own_hook(content@),
{
    has_text(content, HOOK_START_MARKER)
}

/// This tool's section around the script body `script`.
pub fn get_hook_section(script: &str) -> (r: String)
    ensures
        r@ == section_of(script@),
{
    HOOK_START_MARKER.to_owned().concat("\n").concat(trim(script)).concat("\n").concat(
        HOOK_END_MARKER,
    )
}

/// Drops this tool's sections, marker lines included, from the script
/// `content`.
pub fn remove_hook_section(content: &str) -> (r: String)
    ensures
        r@ == without_section(content@),
{
    let lines = split_lines(content);
    let ghost ls = views(lines@);
    let mut kept: Vec<String> = Vec::new();
    let mut inside = false;
    let mut i: usize = 0;
    while i < lines.len()
        invariant
            i <= lines.len(),
            ls == views(lines@),
            ls == lines_of(content@),
            (views(kept@), inside) == kept_lines(ls.subrange(0, i as int)),
        decreases lines.len() - i,
    {
        let line = lines[i].as_str();
        let ghost pre = ls.subrange(0, i as int);
        proof {
            let cur = ls.subrange(0, i + 1);
            assert(cur.drop_last() =~= pre);
            assert(cur.last() == line@);
        }
        if has_text(line, HOOK_START_MARKER) {
            inside = true;
        } else if has_text(line, HOOK_END_MARKER) {
            inside = false;
        } else if !inside {
            let ghost prev = kept@;
            kept.push(line.to_owned());
            proof {
                assert(views(kept@) =~= views(prev).push(line@));
            }
        }
        i = i + 1;
    }
    proof {
        assert(ls.subrange(0, lines.len() as int) =~= ls);
    }
    join_with(&kept, "\n")
}

/// The script after installing `section` into the existing hook script, if
/// there is one.
pub fn install_content(existing: Option<&str>, section: &str) -> (r: String)
    ensures
        r@ == installed_hook(
            match existing {
                Some(t) => Some(t@),
                None => None,
            },
            section@,
        ),
{
    let shebang_line = SHEBANG.to_owned().concat("\n\n");
    match existing {
        None => shebang_line.concat(section),
        Some(text) => {
            if is_push_backup_hook(text) {
                let updated = remove_hook_section(text);
                let rest = trim(updated.as_str());
                if rest.is_empty() {
                    shebang_line.concat(section)
                } else if has_valid_shebang(rest) {
                    rest.to_owned().concat("\n\n").concat(section)
                } else {
                    shebang_line.concat(rest).concat("\n\n").concat(section)
                }
            } else if has_valid_shebang(text) {
                trim(text).to_owned().concat("\n\n").concat(section)
            } else {
                shebang_line.concat(trim(text)).concat("\n\n").concat(section)
            }
        },
    }
}

/// The script after uninstalling this tool's section: `Ok(None)` when the
/// file is to be removed, `Ok(Some(text))` when `text` is to be written.
pub fn uninstall_content(content: &str) -> (r: Result<Option<String>, HookError>)
    ensures
        match r {
            Ok(Some(t)) => uninstalled_hook(content@) == Ok::<Option<Seq<char>>, HookError>(
                Some(t@),
            ),
            Ok(None) => uninstalled_hook(content@) == Ok::<Option<Seq<char>>, HookError>(None),
            Err(e) => uninstalled_hook(content@) == Err::<Option<Seq<char>>, HookError>(e),
        },
{
    if !is_push_backup_hook(content) {
        return Err(HookError::NotOurs);
    }
    let updated = remove_hook_section(content);
    let rest = trim(updated.as_str());
    if rest.is_empty() {
        Ok(None)
    } else {
        Ok(Some(rest.to_owned().concat("\n")))
    }
}

} // verus!
