//! How a mirror's branch compares with the local one, in words.

use vstd::prelude::*;
use crate::text::{join_with, joined, string_from_chars, views};

verus! {

/// The decimal digit character for `d` (below ten).
pub open spec fn digit_char(d: nat) -> char {
    if d == 0 {
        '0'
    } else if d == 1 {
        '1'
    } else if d == 2 {
        '2'
    } else if d == 3 {
        '3'
    } else if d == 4 {
        '4'
    } else if d == 5 {
        '5'
    } else if d == 6 {
        '6'
    } else if d == 7 {
        '7'
    } else if d == 8 {
        '8'
    } else {
        '9'
    }
}

/// The decimal notation of `n`, without leading zeros.
pub open spec fn decimal_text(n: nat) -> Seq<char>
    decreases n,
{
    if n < 10 {
        seq![digit_char(n)]
    } else {
        decimal_text(n / 10).push(digit_char(n % 10))
    }
}

fn digit(d: usize) -> (c: char)
    requires
        d < 10,
    ensures
        c == digit_char(d as nat),
{
    if d == 0 {
        '0'
    } else if d == 1 {
        '1'
    } else if d == 2 {
        '2'
    } else if d == 3 {
        '3'
    } else if d == 4 {
        '4'
    } else if d == 5 {
        '5'
    } else if d == 6 {
        '6'
    } else if d == 7 {
        '7'
    } else if d == 8 {
        '8'
    } else {
        '9'
    }
}

fn push_decimal(n: usize, out: &mut Vec<char>)
    ensures
        final(out)@ == old(out)@ + decimal_text(n as nat),
    decreases n,
{
    if n >= 10 {
        push_decimal(n / 10, out);
    }
    out.push(digit(n % 10));
    proof {
        if n >= 10 {
            assert(final(out)@ =~= old(out)@ + decimal_text(n as nat));
        } else {
            assert(final(out)@ =~= old(out)@ + decimal_text(n as nat));
        }
    }
}

/// `n` in decimal.
pub fn decimal(n: usize) -> (r: String)
    ensures
        r@ == decimal_text(n as nat),
{
    let mut out: Vec<char> = Vec::new();
    push_decimal(n, &mut out);
    assert(out@ =~= decimal_text(n as nat));
    string_from_chars(&out)
}

/// The words on how far apart the branches are.
pub open spec fn drift_parts(ahead: nat, behind: nat) -> Seq<Seq<char>> {
    (if ahead > 0 {
        seq!["领先 "@ + decimal_text(ahead) + " 个提交"@]
    } else {
        Seq::empty()
    }) + (if behind > 0 {
        seq!["落后 "@ + decimal_text(behind) + " 个提交"@]
    } else {
        Seq::empty()
    })
}

/// The status line of a mirror when the local branch is `ahead` commits
/// ahead of it and `behind` commits behind it.
pub open spec fn sync_text_of(ahead: nat, behind: nat) -> Seq<char> {
    if ahead == 0 && behind == 0 {
        "✓ 已同步"@
    } else {
        "↑"@ + decimal_text(ahead) + " ↓"@ + decimal_text(behind) + " ("@ + joined(
            drift_parts(ahead, behind),
            ", "@,
        ) + ")"@
    }
}

/// The status line of a mirror when the local branch is `ahead` commits
/// ahead of it and `behind` commits behind it.
pub fn sync_status_text(ahead: usize, behind: usize) -> (r: String)
    ensures
        r@ == sync_text_of(ahead as nat, behind as nat),
{
    if ahead == 0 && behind == 0 {
        return "✓ 已同步".to_owned();
    }
    let mut parts: Vec<String> = Vec::new();
    if ahead > 0 {
        parts.push("领先 ".to_owned().concat(decimal(ahead).as_str()).concat(" 个提交"));
    }
    if behind > 0 {
        parts.push("落后 ".to_owned().concat(decimal(behind).as_str()).concat(" 个提交"));
    }
    assert(views(parts@) =~= drift_parts(ahead as nat, behind as nat));
    "↑".to_owned().concat(decimal(ahead).as_str()).concat(" ↓").concat(decimal(behind).as_str()).concat(
        " (",
    ).concat(join_with(&parts, ", ").as_str()).concat(")")
}

} // verus!
