//! The git invocations the tool issues, built as argument lists for the
//! caller to run, and the reading of what git prints back.

use vstd::prelude::*;
use crate::text::{
    contains_string, chars_of, join_with, joined, lines_of, split_lines, split_words, trim, trim_of, views, words_of,
};

verus! {

/// Flags for `git push`. `extra_args` are passed verbatim after the URL and
/// the branch, in the order given.
pub struct PushOptions {
    pub force: bool,
    pub force_with_lease: bool,
    pub set_upstream: bool,
    pub tags: bool,
    pub extra_args: Vec<String>,
}

pub struct PushOptionsView {
    pub force: bool,
    pub force_with_lease: bool,
    pub set_upstream: bool,
    pub tags: bool,
    pub extra_args: Seq<Seq<char>>,
}

impl View for PushOptions {
    type V = PushOptionsView;

    open spec fn view(&self) -> PushOptionsView {
        PushOptionsView {
            force: self.force,
            force_with_lease: self.force_with_lease,
            set_upstream: self.set_upstream,
            tags: self.tags,
            extra_args: views(self.extra_args@),
        }
    }
}

impl PushOptions {
    /// No flag set and no extra argument.
    pub fn new() -> (r: PushOptions)
        ensures
            !r.force && !r.force_with_lease && !r.set_upstream && !r.tags,
            r.extra_args@.len() == 0,
    {
        PushOptions {
            force: false,
            force_with_lease: false,
            set_upstream: false,
            tags: false,
            extra_args: Vec::new(),
        }
    }
}

/// The retry policy of a push run.
#[derive(Clone, Copy)]
pub struct RetryConfig {
    /// Rounds allowed after the first attempt.
    pub max_retries: u32,
    /// Wait before each retry round, in milliseconds.
    pub delay_ms: u64,
    /// Limit on every single probe and push, in seconds; 0 means none.
    pub timeout_secs: u64,
}

/// `word` when `on` holds, nothing otherwise.
pub open spec fn flag(on: bool, word: Seq<char>) -> Seq<Seq<char>> {
    if on {
        seq![word]
    } else {
        Seq::empty()
    }
}

/// The arguments of `git push` to `url` for `branch`: the set flags in the
/// fixed order `--force`, `--force-with-lease`, `--set-upstream`, `--tags`,
/// then the URL and the branch, then the extra arguments.
pub open spec fn push_args_spec(url: Seq<char>, branch: Seq<char>, o: PushOptionsView) -> Seq<
    Seq<char>,
> {
    seq!["push"@] + flag(o.force, "--force"@) + flag(o.force_with_lease, "--force-with-lease"@)
        + flag(o.set_upstream, "--set-upstream"@) + flag(o.tags, "--tags"@) + seq![url, branch]
        + o.extra_args
}

/// The command line a dry run shows for one target.
pub open spec fn dry_run_text(url: Seq<char>, branch: Seq<char>, o: PushOptionsView) -> Seq<char> {
    joined(seq!["git"@] + push_args_spec(url, branch, o), " "@)
}

/// Appends `word` to `args`.
fn push_word(args: &mut Vec<String>, word: &str)
    ensures
        views(final(args)@) == views(old(args)@).push(word@),
{
    let ghost before = args@;
    args.push(word.to_owned());
    proof {
        assert(views(args@) =~= views(before).push(word@));
    }
}

/// The arguments of the git invocation that pushes `branch` to `remote`.
pub fn run_git_push(remote: &str, branch: &str, options: &PushOptions) -> (args: Vec<String>)
    ensures
        views(args@) == push_args_spec(remote@, branch@, options@),
{
    let mut args: Vec<String> = Vec::new();
    push_word(&mut args, "push");
    let ghost base = views(args@);
    if options.force {
        push_word(&mut args, "--force");
    }
    let ghost s1 = views(args@);
    assert(s1 == base + flag(options.force, "--force"@));
    if options.force_with_lease {
        push_word(&mut args, "--force-with-lease");
    }
    let ghost s2 = views(args@);
    assert(s2 =~= s1 + flag(options.force_with_lease, "--force-with-lease"@));
    if options.set_upstream {
        push_word(&mut args, "--set-upstream");
    }
    let ghost s3 = views(args@);
    assert(s3 =~= s2 + flag(options.set_upstream, "--set-upstream"@));
    if options.tags {
        push_word(&mut args, "--tags");
    }
    let ghost s4 = views(args@);
    assert(s4 =~= s3 + flag(options.tags, "--tags"@));
    push_word(&mut args, remote);
    push_word(&mut args, branch);
    let ghost s5 = views(args@);
    assert(s5 =~= s4 + seq![remote@, branch@]);
    let mut i: usize = 0;
    while i < options.extra_args.len()
        invariant
            i <= options.extra_args.len(),
            views(args@) == s5 + options@.extra_args.subrange(0, i as int),
        decreases options.extra_args.len() - i,
    {
        push_word(&mut args, options.extra_args[i].as_str());
        proof {
            assert(options@.extra_args.subrange(0, i + 1) =~= options@.extra_args.subrange(
                0,
                i as int,
            ).push(options.extra_args@[i as int]@));
            assert((s5 + options@.extra_args.subrange(0, i as int)).push(
                options.extra_args@[i as int]@,
            ) =~= s5 + options@.extra_args.subrange(0, i + 1));
        }
        i = i + 1;
    }
    assert(options@.extra_args.subrange(0, i as int) =~= options@.extra_args);
    assert(views(args@) =~= push_args_spec(remote@, branch@, options@));
    args
}

/// The command line that a dry run shows for pushing `branch` to `url`.
pub fn dry_run_command(url: &str, branch: &str, options: &PushOptions) -> (r: String)
    ensures
        r@ == dry_run_text(url@, branch@, options@),
{
    let args = run_git_push(url, branch, options);
    let mut words: Vec<String> = Vec::new();
    push_word(&mut words, "git");
    let mut i: usize = 0;
    while i < args.len()
        invariant
            i <= args.len(),
            views(words@) == seq!["git"@] + views(args@).subrange(0, i as int),
        decreases args.len() - i,
    {
        push_word(&mut words, args[i].as_str());
        proof {
            assert(views(args@).subrange(0, i + 1) =~= views(args@).subrange(0, i as int).push(
                args@[i as int]@,
            ));
            assert(views(words@) =~= seq!["git"@] + views(args@).subrange(0, i + 1));
        }
        i = i + 1;
    }
    assert(views(args@).subrange(0, args.len() as int) =~= views(args@));
    join_with(&words, " ")
}

/// The arguments of the git invocation that adds remote `name` with fetch
/// URL `url`.
pub fn run_git_add_remote(name: &str, url: &str) -> (args: Vec<String>)
    ensures
        views(args@) == seq!["remote"@, "add"@, name@, url@],
{
    let mut args: Vec<String> = Vec::new();
    push_word(&mut args, "remote");
    push_word(&mut args, "add");
    push_word(&mut args, name);
    push_word(&mut args, url);
    assert(views(args@) =~= seq!["remote"@, "add"@, name@, url@]);
    args
}

/// The arguments of the git invocation that removes remote `name`.
pub fn run_git_remote_remove(name: &str) -> (args: Vec<String>)
    ensures
        views(args@) == seq!["remote"@, "remove"@, name@],
{
    let mut args: Vec<String> = Vec::new();
    push_word(&mut args, "remote");
    push_word(&mut args, "remove");
    push_word(&mut args, name);
    assert(views(args@) =~= seq!["remote"@, "remove"@, name@]);
    args
}

/// The arguments of the git invocation that adds `url` as a further push
/// URL of remote `name`.
pub fn run_git_add_push_url(name: &str, url: &str) -> (args: Vec<String>)
    ensures
        views(args@) == seq!["remote"@, "set-url"@, "--add"@, "--push"@, name@, url@],
{
    let mut args: Vec<String> = Vec::new();
    push_word(&mut args, "remote");
    push_word(&mut args, "set-url");
    push_word(&mut args, "--add");
    push_word(&mut args, "--push");
    push_word(&mut args, name);
    push_word(&mut args, url);
    assert(views(args@) =~= seq!["remote"@, "set-url"@, "--add"@, "--push"@, name@, url@]);
    args
}

/// The arguments of the git invocation that prints the fetch URL of remote
/// `name`.
pub fn run_git_get_remote_url(name: &str) -> (args: Vec<String>)
    ensures
        views(args@) == seq!["remote"@, "get-url"@, name@],
{
    let mut args: Vec<String> = Vec::new();
    push_word(&mut args, "remote");
    push_word(&mut args, "get-url");
    push_word(&mut args, name);
    assert(views(args@) =~= seq!["remote"@, "get-url"@, name@]);
    args
}

/// The arguments of the git invocation that prints every push URL of remote
/// `name`, one per line.
pub fn run_git_get_push_urls(name: &str) -> (args: Vec<String>)
    ensures
        views(args@) == seq!["remote"@, "get-url"@, "--all"@, "--push"@, name@],
{
    let mut args: Vec<String> = Vec::new();
    push_word(&mut args, "remote");
    push_word(&mut args, "get-url");
    push_word(&mut args, "--all");
    push_word(&mut args, "--push");
    push_word(&mut args, name);
    assert(views(args@) =~= seq!["remote"@, "get-url"@, "--all"@, "--push"@, name@]);
    args
}

/// The arguments of the git invocation that sets the global alias `name` to
/// `command`, replacing any earlier value.
pub fn set_git_alias(name: &str, command: &str) -> (args: Vec<String>)
    ensures
        views(args@) == seq!["config"@, "--global"@, "alias."@ + name@, command@],
{
    let mut args: Vec<String> = Vec::new();
    push_word(&mut args, "config");
    push_word(&mut args, "--global");
    let prefix = "alias.".to_owned();
    let key = prefix.concat(name);
    assert(key@ == "alias."@ + name@);
    let ghost before = args@;
    args.push(key);
    assert(views(args@) =~= views(before).push(key@));
    push_word(&mut args, command);
    assert(views(args@) =~= seq!["config"@, "--global"@, "alias."@ + name@, command@]);
    args
}

/// A failure read from git's answer.
pub enum GitError {
    /// `HEAD` is detached: there is no branch to push.
    DetachedHead,
}

/// The current branch, from what `git rev-parse --abbrev-ref HEAD` printed
/// (trimmed). A detached `HEAD` prints `HEAD` and is refused.
pub fn current_branch(printed: String) -> (r: Result<String, GitError>)
    ensures
        printed@ == "HEAD"@ ==> r is Err,
        printed@ != "HEAD"@ ==> r == Ok::<String, GitError>(printed),
{
    if printed == "HEAD".to_owned() {
        Err(GitError::DetachedHead)
    } else {
        Ok(printed)
    }
}

/// Whether `name` is one of the remote names that `git remote` printed:
/// a non-empty line, trimmed.
pub open spec fn is_listed_remote(name: Seq<char>, printed: Seq<char>) -> bool {
    &&& name.len() > 0
    &&& exists|k: int|
        0 <= k < lines_of(printed).len() && trim_of(#[trigger] lines_of(printed)[k]) == name
}

/// The remote names that `git remote` printed, each once, in the order of
/// their first line.
pub fn git_remote_names(printed: &str) -> (r: Vec<String>)
    ensures
        views(r@).no_duplicates(),
        forall|name: Seq<char>| views(r@).contains(name) <==> is_listed_remote(name, printed@),
{
    let lines = split_lines(printed);
    let ghost ls = lines_of(printed@);
    let mut r: Vec<String> = Vec::new();
    let mut i: usize = 0;
    while i < lines.len()
        invariant
            i <= lines.len(),
            views(lines@) == ls,
            ls == lines_of(printed@),
            views(r@).no_duplicates(),
            forall|name: Seq<char>|
                views(r@).contains(name) <==> (name.len() > 0 && exists|k: int|
                    0 <= k < i && trim_of(#[trigger] ls[k]) == name),
        decreases lines.len() - i,
    {
        let name = trim(lines[i].as_str()).to_owned();
        assert(ls[i as int] == lines@[i as int]@);
        let ghost prev = r@;
        let ghost nv = name@;
        assert(nv == trim_of(ls[i as int]));
        let non_empty = !name.as_str().is_empty();
        if non_empty && !contains_string(&r, &name) {
            r.push(name);
            assert(views(r@) =~= views(prev).push(nv));
            assert(views(r@)[views(r@).len() - 1] == nv);
            assert forall|a: int, b: int|
                0 <= a < views(r@).len() && 0 <= b < views(r@).len() && a != b implies views(
                r@,
            )[a] != views(r@)[b] by {
                if a < views(prev).len() && b < views(prev).len() {
                    assert(views(r@)[a] == views(prev)[a]);
                    assert(views(r@)[b] == views(prev)[b]);
                } else if a < views(prev).len() {
                    assert(views(r@)[a] == views(prev)[a]);
                    assert(!views(prev).contains(nv));
                } else if b < views(prev).len() {
                    assert(views(r@)[b] == views(prev)[b]);
                    assert(!views(prev).contains(nv));
                }
            }
        } else {
            assert(nv.len() > 0 ==> views(prev).contains(nv));
        }
        proof {
            assert forall|n: Seq<char>| views(r@).contains(n) <==> (n.len() > 0 && exists|k: int|
                0 <= k < i + 1 && trim_of(#[trigger] ls[k]) == n) by {
                if n.len() > 0 && trim_of(ls[i as int]) == n {
                    if views(r@).len() > views(prev).len() {
                        assert(views(r@)[views(r@).len() - 1] == n);
                    }
                }
                if views(r@).contains(n) && views(r@).len() > views(prev).len() {
                    let j = choose|j: int| 0 <= j < views(r@).len() && views(r@)[j] == n;
                    if j < views(prev).len() {
                        assert(views(prev)[j] == n);
                    }
                }
                if views(prev).contains(n) {
                    let j = choose|j: int| 0 <= j < views(prev).len() && views(prev)[j] == n;
                    assert(views(r@)[j] == n);
                }
            }
        }
        i = i + 1;
    }
    r
}

/// The push URLs that `git remote get-url --all --push` printed, one per
/// line.
pub fn push_urls_from_output(printed: &str) -> (r: Vec<String>)
    ensures
        views(r@) == lines_of(printed@),
{
    split_lines(printed)
}

/// Whether every character of `s` is an ASCII digit.
pub open spec fn is_digits(s: Seq<char>) -> bool {
    forall|i: int| 0 <= i < s.len() ==> '0' <= #[trigger] s[i] <= '9'
}

/// The number that the decimal digits `s` denote.
pub open spec fn decimal_value(s: Seq<char>) -> int
    decreases s.len(),
{
    if s.len() == 0 {
        0
    } else {
        decimal_value(s.drop_last()) * 10 + (s.last() as int - '0' as int)
    }
}

/// What reading `w` as a count gives: an optional `+` and one or more
/// decimal digits whose value fits in `usize`; nothing otherwise.
pub open spec fn count_of(w: Seq<char>) -> Option<usize> {
    let d = if w.len() > 0 && w[0] == '+' {
        w.drop_first()
    } else {
        w
    };
    if d.len() > 0 && is_digits(d) && decimal_value(d) <= usize::MAX {
        Some(decimal_value(d) as usize)
    } else {
        None
    }
}

proof fn lemma_decimal_grows(s: Seq<char>, i: int)
    requires
        is_digits(s),
        0 <= i <= s.len(),
    ensures
        decimal_value(s.subrange(0, i)) <= decimal_value(s),
        decimal_value(s) >= 0,
    decreases s.len(),
{
    if s.len() > 0 {
        let init = s.drop_last();
        assert(is_digits(init)) by {
            assert forall|k: int| 0 <= k < init.len() implies '0' <= #[trigger] init[k] <= '9' by {
                assert(init[k] == s[k]);
            }
        }
        assert(s[s.len() - 1] >= '0');
        if i < s.len() {
            assert(s.subrange(0, i) =~= init.subrange(0, i));
            lemma_decimal_grows(init, i);
        } else {
            assert(s.subrange(0, i) =~= s);
            lemma_decimal_grows(init, 0);
        }
    }
}

/// Reads `w` as a count: an optional `+`, then decimal digits that fit in
/// `usize`.
pub fn parse_count(w: &str) -> (r: Option<usize>)
    ensures
        r == count_of(w@),
{
    let cs = chars_of(w);
    let mut i: usize = 0;
    if cs.len() > 0 && cs[0] == '+' {
        i = 1;
    }
    let ghost d = if w@.len() > 0 && w@[0] == '+' {
        w@.drop_first()
    } else {
        w@
    };
    let start = i;
    assert(d =~= cs@.subrange(start as int, cs@.len() as int));
    if start == cs.len() {
        return None;
    }
    let mut value: usize = 0;
    while i < cs.len()
        invariant
            start <= i <= cs.len(),
            cs@ == w@,
            d == cs@.subrange(start as int, cs@.len() as int),
            d == (if w@.len() > 0 && w@[0] == '+' {
                w@.drop_first()
            } else {
                w@
            }),
            is_digits(d.subrange(0, i - start)),
            value == decimal_value(d.subrange(0, i - start)),
        decreases cs.len() - i,
    {
        let c = cs[i];
        let ghost pre = d.subrange(0, i - start);
        let ghost next = d.subrange(0, i - start + 1);
        assert(next.drop_last() =~= pre);
        assert(next.last() == c);
        if !('0' <= c && c <= '9') {
            assert(!is_digits(d)) by {
                assert(d[i - start] == c);
            }
            return None;
        }
        assert(is_digits(next)) by {
            assert forall|k: int| 0 <= k < next.len() implies '0' <= #[trigger] next[k] <= '9' by {
                if k < pre.len() {
                    assert(next[k] == pre[k]);
                }
            }
        }
        let digit = (c as u32 - '0' as u32) as usize;
        let step = match value.checked_mul(10) {
            Some(v) => v.checked_add(digit),
            None => None,
        };
        match step {
            Some(v) => {
                value = v;
            },
            None => {
                proof {
                    assert(decimal_value(next) > usize::MAX);
                    if is_digits(d) {
                        lemma_decimal_grows(d, i - start + 1);
                    }
                }
                return None;
            },
        }
        i = i + 1;
    }
    assert(d.subrange(0, i - start) =~= d);
    Some(value)
}

/// The count read from the `k`-th word that `printed` holds, 0 when that
/// word is missing or is no count.
pub open spec fn count_at(printed: Seq<char>, k: int) -> usize {
    if 0 <= k < words_of(printed).len() {
        match count_of(words_of(printed)[k]) {
            Some(v) => v,
            None => 0,
        }
    } else {
        0
    }
}

fn count_in(words: &Vec<String>, k: usize) -> (r: usize)
    ensures
        r == (if k < words@.len() {
            match count_of(words@[k as int]@) {
                Some(v) => v,
                None => 0,
            }
        } else {
            0
        }),
{
    if k < words.len() {
        match parse_count(words[k].as_str()) {
            Some(v) => v,
            None => 0,
        }
    } else {
        0
    }
}

/// The arguments of the git invocation that counts the commits only `HEAD`
/// has and those only `remote_commit` has.
pub fn ahead_behind_command(remote_commit: &str) -> (args: Vec<String>)
    ensures
        views(args@) == seq!["rev-list"@, "--left-right"@, "--count"@, "HEAD..."@ + remote_commit@],
{
    let mut args: Vec<String> = Vec::new();
    push_word(&mut args, "rev-list");
    push_word(&mut args, "--left-right");
    push_word(&mut args, "--count");
    let range = "HEAD...".to_owned().concat(remote_commit);
    let ghost before = args@;
    args.push(range);
    assert(views(args@) =~= views(before).push(range@));
    assert(views(args@) =~= seq!["rev-list"@, "--left-right"@, "--count"@, "HEAD..."@ + remote_commit@]);
    args
}

/// How many commits `HEAD` is ahead of and behind the remote commit, from
/// what `git rev-list --left-right --count` printed: the first and second
/// words read as counts, 0 where a word is missing or unreadable.
pub fn git_count_ahead_behind(printed: &str) -> (r: (usize, usize))
    ensures
        r.0 == count_at(printed@, 0),
        r.1 == count_at(printed@, 1),
{
    let words = split_words(printed);
    proof {
        assert(words@.len() == words_of(printed@).len());
        if words@.len() > 0 {
            assert(words@[0]@ == words_of(printed@)[0]);
        }
        if words@.len() > 1 {
            assert(words@[1]@ == words_of(printed@)[1]);
        }
    }
    (count_in(&words, 0), count_in(&words, 1))
}

/// The commit that `git ls-remote <url> refs/heads/<branch>` printed: its
/// first word, if it printed any.
pub fn remote_commit_from_output(printed: &str) -> (r: Option<String>)
    ensures
        match r {
            Some(c) => words_of(printed@).len() > 0 && c@ == words_of(printed@)[0],
            None => words_of(printed@).len() == 0,
        },
{
    let mut words = split_words(printed);
    if words.len() == 0 {
        return None;
    }
    let ghost all = words@;
    let first = words.swap_remove(0);
    assert(first == all[0]);
    Some(first)
}

} // verus!
