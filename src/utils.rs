//! Composing a remote URL from a saved base and a repository name.

use vstd::prelude::*;
use crate::text::{chars_of, ends_with, ends_with_char, has_suffix, trim, trim_of};

verus! {

/// `s` without its leading characters equal to `c`.
pub open spec fn drop_leading(s: Seq<char>, c: char) -> Seq<char>
    decreases s.len(),
{
    if s.len() > 0 && s[0] == c {
        drop_leading(s.drop_first(), c)
    } else {
        s
    }
}

/// `s` without its trailing characters equal to `c`.
pub open spec fn drop_trailing(s: Seq<char>, c: char) -> Seq<char>
    decreases s.len(),
{
    if s.len() > 0 && s.last() == c {
        drop_trailing(s.drop_last(), c)
    } else {
        s
    }
}

/// The repository part of a remote URL: the name trimmed of whitespace and
/// of slashes on both ends, without one trailing `.git`.
pub open spec fn repo_stem(repo: Seq<char>) -> Seq<char> {
    let r = drop_trailing(drop_leading(trim_of(repo), '/'), '/');
    if ends_with(r, ".git"@) {
        r.subrange(0, r.len() - 4)
    } else {
        r
    }
}

/// The remote URL for repository `repo` under `base`: joined with a `/`
/// unless the base already ends in `/` or `:`, and ending in one `.git`.
pub open spec fn remote_url(base: Seq<char>, repo: Seq<char>) -> Seq<char> {
    let joined = if ends_with_char(base, '/') || ends_with_char(base, ':') {
        base + repo_stem(repo)
    } else {
        base + "/"@ + repo_stem(repo)
    };
    if ends_with(joined, ".git"@) {
        joined
    } else {
        joined + ".git"@
    }
}

/// The remote URL of repository `repo` under the saved base `base`.
pub fn build_remote_url(base: &str, repo: &str) -> (r: String)
    ensures
        r@ == remote_url(base@, repo@),
{
    proof {
        reveal_strlit(".git");
        reveal_strlit("/");
    }
    let trimmed = trim(repo);
    let s = chars_of(trimmed);
    let ghost t = s@;
    let n = s.len();
    let mut start: usize = 0;
    assert(t.subrange(0, n as int) =~= t);
    while start < n && s[start] == '/'
        invariant
            start <= n,
            n == t.len(),
            s@ == t,
            drop_leading(t, '/') == drop_leading(t.subrange(start as int, n as int), '/'),
        decreases n - start,
    {
        let ghost sub = t.subrange(start as int, n as int);
        assert(sub.drop_first() =~= t.subrange(start + 1, n as int));
        start = start + 1;
    }
    let ghost lead = t.subrange(start as int, n as int);
    assert(drop_leading(lead, '/') == lead);
    let mut end: usize = n;
    while end > start && s[end - 1] == '/'
        invariant
            start <= end <= n,
            n == t.len(),
            s@ == t,
            lead == t.subrange(start as int, n as int),
            drop_trailing(lead, '/') == drop_trailing(t.subrange(start as int, end as int), '/'),
        decreases end - start,
    {
        let ghost sub = t.subrange(start as int, end as int);
        assert(sub.drop_last() =~= t.subrange(start as int, end - 1));
        end = end - 1;
    }
    let ghost r = t.subrange(start as int, end as int);
    assert(drop_trailing(r, '/') == r);
    let has_git = end - start >= 4 && s[end - 4] == '.' && s[end - 3] == 'g' && s[end - 2] == 'i'
        && s[end - 1] == 't';
    assert(has_git == ends_with(r, ".git"@)) by {
        if r.len() >= 4 {
            let tail = r.subrange(r.len() - 4, r.len() as int);
            assert(tail[0] == s[end - 4]);
            assert(tail[1] == s[end - 3]);
            assert(tail[2] == s[end - 2]);
            assert(tail[3] == s[end - 1]);
            if has_git {
                assert(tail =~= ".git"@);
            }
        }
    }
    let stem_end = if has_git {
        end - 4
    } else {
        end
    };
    assert(t.subrange(start as int, stem_end as int) =~= repo_stem(repo@));
    let stem = trimmed.substring_char(start, stem_end);
    let base_chars = chars_of(base);
    let bn = base_chars.len();
    let joined = if bn > 0 && (base_chars[bn - 1] == '/' || base_chars[bn - 1] == ':') {
        base.to_owned().concat(stem)
    } else {
        base.to_owned().concat("/").concat(stem)
    };
    let joined_chars = chars_of(joined.as_str());
    let suffix = chars_of(".git");
    if has_suffix(&joined_chars, &suffix) {
        joined
    } else {
        joined.concat(".git")
    }
}

} // verus!
