//! Registering the tool as a git subcommand through a global alias.

use vstd::prelude::*;
use crate::text::{chars_of, contains_text, has_text, string_from_chars};

verus! {

/// The alias name used when none is given.
pub const DEFAULT_ALIAS: &'static str = "pb";

/// The command name of this tool.
pub const TOOL_COMMAND: &'static str = "yewpb";

/// The alias name to use: the one given, or the default.
pub fn alias_name(given: Option<String>) -> (r: String)
    ensures
        r@ == match given {
            Some(n) => n@,
            None => DEFAULT_ALIAS@,
        },
{
    match given {
        Some(n) => n,
        None => DEFAULT_ALIAS.to_owned(),
    }
}

/// `s` with every `from` replaced by `to`.
pub open spec fn replaced(s: Seq<char>, from: char, to: char) -> Seq<char> {
    s.map_values(|c: char| if c == from { to } else { c })
}

/// The alias value that runs this tool: a shell alias (`!`) to the tool's
/// full path when it is known (on Windows quoted, with `\` turned into
/// `/`), to the bare command name otherwise.
pub open spec fn alias_value_of(path: Option<Seq<char>>, windows: bool) -> Seq<char> {
    match path {
        Some(p) => if windows {
            "!\""@ + replaced(p, '\\', '/') + "\""@
        } else {
            "!"@ + p
        },
        None => "!"@ + TOOL_COMMAND@,
    }
}

/// The alias value that runs this tool from `path`, if known.
pub fn alias_value(path: Option<String>, windows: bool) -> (r: String)
    ensures
        r@ == alias_value_of(
            match path {
                Some(p) => Some(p@),
                None => None,
            },
            windows,
        ),
{
    match path {
        Some(p) => {
            if windows {
                let cs = chars_of(p.as_str());
                let mut out: Vec<char> = Vec::new();
                let mut i: usize = 0;
                while i < cs.len()
                    invariant
                        i <= cs.len(),
                        out@ == replaced(cs@.subrange(0, i as int), '\\', '/'),
                    decreases cs.len() - i,
                {
                    let c = cs[i];
                    out.push(if c == '\\' { '/' } else { c });
                    assert(out@ =~= replaced(cs@.subrange(0, i + 1), '\\', '/'));
                    i = i + 1;
                }
                assert(cs@.subrange(0, cs.len() as int) =~= cs@);
                let fixed = string_from_chars(&out);
                "!\"".to_owned().concat(fixed.as_str()).concat("\"")
            } else {
                "!".to_owned().concat(p.as_str())
            }
        },
        None => "!".to_owned().concat(TOOL_COMMAND),
    }
}

/// Whether an alias value was set up by this tool: it names the tool.
pub fn is_own_alias(value: &str) -> (r: bool)
    ensures
        r == contains_text(value@, TOOL_COMMAND@),
{
    has_text(value, TOOL_COMMAND)
}

/// What installing the alias does.
#[derive(PartialEq, Eq, Structural, Clone, Copy, Debug)]
pub enum AliasStep {
    /// The alias already has the wanted value.
    UpToDate,
    /// The alias exists with another value and is overwritten.
    Replace,
    /// The alias does not exist yet.
    Create,
}

/// What installing the alias with value `wanted` does, given its current
/// value.
pub fn alias_install_step(current: &Option<String>, wanted: &String) -> (r: AliasStep)
    ensures
        r == match current {
            Some(v) => if v@ == wanted@ {
                AliasStep::UpToDate
            } else {
                AliasStep::Replace
            },
            None => AliasStep::Create,
        },
{
    match current {
        Some(v) => {
            if *v == *wanted {
                AliasStep::UpToDate
            } else {
                AliasStep::Replace
            }
        },
        None => AliasStep::Create,
    }
}

} // verus!
