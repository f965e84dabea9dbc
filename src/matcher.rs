//! Resolving a push URL back to the logical name of the saved remote whose
//! base URL it extends.

use vstd::prelude::*;
use crate::config::{Config, Remote, RemoteView, remotes_view};
use crate::text::{chars_of, ends_with_char, starts_with};

verus! {

/// The name given to a URL that no saved base matches.
pub open spec fn unnamed() -> Seq<char> {
    "未命名"@
}

/// Whether `base` is a prefix of `url` that ends on a clean boundary: the
/// rest of the URL is empty, or the base ends in `/` or `:`, or the rest
/// starts with `/` or `:`.
pub open spec fn clean_match(url: Seq<char>, base: Seq<char>) -> bool {
    &&& starts_with(url, base)
    &&& {
        ||| url.len() == base.len()
        ||| ends_with_char(base, '/')
        ||| ends_with_char(base, ':')
        ||| url[base.len() as int] == '/'
        ||| url[base.len() as int] == ':'
    }
}

/// The name of the first remote of `rs`, in list order, whose base cleanly
/// matches `url`.
pub open spec fn first_match_name(url: Seq<char>, rs: Seq<RemoteView>) -> Seq<char>
    decreases rs.len(),
{
    if rs.len() == 0 {
        unnamed()
    } else if clean_match(url, rs[0].base) {
        rs[0].name
    } else {
        first_match_name(url, rs.drop_first())
    }
}

/// Whether remote `i` is the most specific clean match for `url`: no clean
/// match has a longer base, and none before it has a base as long.
pub open spec fn is_best_match(url: Seq<char>, rs: Seq<RemoteView>, i: int) -> bool {
    &&& 0 <= i < rs.len()
    &&& clean_match(url, rs[i].base)
    &&& forall|j: int|
        #![trigger rs[j]]
        0 <= j < rs.len() && clean_match(url, rs[j].base) ==> {
            &&& rs[j].base.len() <= rs[i].base.len()
            &&& (j < i ==> rs[j].base.len() < rs[i].base.len())
        }
}

/// The logical name that `url` resolves to: the name of the most specific
/// clean match, or the unnamed sentinel.
pub open spec fn matched_name(url: Seq<char>, rs: Seq<RemoteView>) -> Seq<char> {
    if exists|i: int| is_best_match(url, rs, i) {
        rs[choose|i: int| is_best_match(url, rs, i)].name
    } else {
        unnamed()
    }
}

/// There is at most one most specific match.
pub proof fn lemma_best_match_unique(url: Seq<char>, rs: Seq<RemoteView>, i: int, k: int)
    requires
        is_best_match(url, rs, i),
        is_best_match(url, rs, k),
    ensures
        i == k,
{
    assert(rs[k].base.len() <= rs[i].base.len());
    assert(rs[i].base.len() <= rs[k].base.len());
}

/// When some saved base cleanly matches `url`, the most specific clean
/// match exists, and `url` resolves to its name rather than to the unnamed
/// sentinel.
pub proof fn law_clean_match_resolves(url: Seq<char>, rs: Seq<RemoteView>, k: int)
    requires
        0 <= k < rs.len(),
        clean_match(url, rs[k].base),
    ensures
        exists|i: int| is_best_match(url, rs, i) && matched_name(url, rs) == rs[i].name,
    decreases rs.len(),
{
    // Induction on the list with its last entry removed.
    let n = rs.len() as int;
    let init = rs.drop_last();
    if k == n - 1 && !(exists|j: int| 0 <= j < n - 1 && clean_match(url, rs[j].base)) {
        assert(is_best_match(url, rs, k));
        let c = choose|i: int| is_best_match(url, rs, i);
        lemma_best_match_unique(url, rs, k, c);
    } else {
        let k2 = if k < n - 1 {
            k
        } else {
            choose|j: int| 0 <= j < n - 1 && clean_match(url, rs[j].base)
        };
        assert(init[k2] == rs[k2]);
        law_clean_match_resolves(url, init, k2);
        let b = choose|i: int| is_best_match(url, init, i);
        assert(init[b] == rs[b]);
        if clean_match(url, rs[n - 1].base) && rs[n - 1].base.len() > rs[b].base.len() {
            assert forall|j: int|
                #![trigger rs[j]]
                0 <= j < rs.len() && clean_match(url, rs[j].base) implies {
                &&& rs[j].base.len() <= rs[n - 1].base.len()
                &&& (j < n - 1 ==> rs[j].base.len() < rs[n - 1].base.len())
            } by {
                if j < n - 1 {
                    assert(init[j] == rs[j]);
                }
            }
            assert(is_best_match(url, rs, n - 1));
            let c = choose|i: int| is_best_match(url, rs, i);
            lemma_best_match_unique(url, rs, n - 1, c);
        } else {
            assert forall|j: int|
                #![trigger rs[j]]
                0 <= j < rs.len() && clean_match(url, rs[j].base) implies {
                &&& rs[j].base.len() <= rs[b].base.len()
                &&& (j < b ==> rs[j].base.len() < rs[b].base.len())
            } by {
                if j < n - 1 {
                    assert(init[j] == rs[j]);
                }
            }
            assert(is_best_match(url, rs, b));
            let c = choose|i: int| is_best_match(url, rs, i);
            lemma_best_match_unique(url, rs, b, c);
        }
    }
}

/// The unnamed sentinel as a string.
pub fn unnamed_name() -> (r: String)
    ensures
        r@ == unnamed(),
{
    "未命名".to_owned()
}

/// Whether `base` cleanly matches `url`, on character vectors.
fn clean_match_chars(url: &Vec<char>, base: &Vec<char>) -> (r: bool)
    ensures
        r == clean_match(url@, base@),
{
    if !crate::text::has_prefix(url, base) {
        return false;
    }
    let n = base.len();
    if url.len() == n {
        return true;
    }
    if n > 0 && (base[n - 1] == '/' || base[n - 1] == ':') {
        return true;
    }
    url[n] == '/' || url[n] == ':'
}

/// The name of the first remote, in the given order, whose base cleanly
/// matches `url`; the unnamed sentinel when none does. Callers that want the
/// most specific match pass the remotes longest base first.
pub fn match_display_name(url: &str, config_remotes: &[Remote]) -> (r: String)
    ensures
        r@ == first_match_name(url@, remotes_view(config_remotes@)),
{
    let ghost rs = remotes_view(config_remotes@);
    let url_chars = chars_of(url);
    let mut i: usize = 0;
    assert(rs.subrange(0, rs.len() as int) =~= rs);
    while i < config_remotes.len()
        invariant
            i <= config_remotes.len(),
            rs == remotes_view(config_remotes@),
            url_chars@ == url@,
            first_match_name(url@, rs) == first_match_name(url@, rs.subrange(i as int, rs.len() as int)),
        decreases config_remotes.len() - i,
    {
        let remote = &config_remotes[i];
        let base = chars_of(remote.base.as_str());
        proof {
            let rest = rs.subrange(i as int, rs.len() as int);
            assert(rest[0] == remote@);
            assert(rest.drop_first() =~= rs.subrange(i + 1, rs.len() as int));
        }
        if clean_match_chars(&url_chars, &base) {
            return remote.name.clone();
        }
        i = i + 1;
    }
    proof {
        assert(rs.subrange(i as int, rs.len() as int).len() == 0);
    }
    unnamed_name()
}

/// The logical name that `url` resolves to among the saved remotes: the
/// name of the clean match with the longest base, the earlier entry winning
/// a tie; the unnamed sentinel when no base matches.
pub fn match_config_name(config: &Config, url: &str) -> (r: String)
    ensures
        r@ == matched_name(url@, config@),
{
    let ghost rs = config@;
    let url_chars = chars_of(url);
    let mut best: Option<usize> = None;
    let mut best_len: usize = 0;
    let mut i: usize = 0;
    while i < config.remotes.len()
        invariant
            i <= config.remotes.len(),
            rs == config@,
            rs.len() == config.remotes.len(),
            url_chars@ == url@,
            best is None ==> forall|j: int| 0 <= j < i ==> !clean_match(url@, #[trigger] rs[j].base),
            best is Some ==> {
                let b = best->0 as int;
                &&& b < i
                &&& clean_match(url@, rs[b].base)
                &&& best_len == rs[b].base.len()
                &&& forall|j: int|
                    #![trigger rs[j]]
                    0 <= j < i && clean_match(url@, rs[j].base) ==> {
                        &&& rs[j].base.len() <= rs[b].base.len()
                        &&& (j < b ==> rs[j].base.len() < rs[b].base.len())
                    }
            },
        decreases config.remotes.len() - i,
    {
        let base = chars_of(config.remotes[i].base.as_str());
        assert(rs[i as int].base == base@);
        if clean_match_chars(&url_chars, &base) {
            let better = match best {
                None => true,
                Some(_) => base.len() > best_len,
            };
            if better {
                best = Some(i);
                best_len = base.len();
            }
        }
        i = i + 1;
    }
    match best {
        Some(b) => {
            proof {
                assert(is_best_match(url@, rs, b as int));
                let c = choose|k: int| is_best_match(url@, rs, k);
                lemma_best_match_unique(url@, rs, b as int, c);
            }
            config.remotes[b].name.clone()
        },
        None => {
            proof {
                assert forall|k: int| !is_best_match(url@, rs, k) by {
                    if 0 <= k < rs.len() {
                        assert(!clean_match(url@, rs[k].base));
                    }
                }
            }
            unnamed_name()
        },
    }
}

/// Among saved remotes none of whose bases is a prefix of another's, a URL
/// formed by a base followed by a path that starts with `/` resolves to that
/// base's name.
pub proof fn law_own_base_resolves(rs: Seq<RemoteView>, k: int, path: Seq<char>)
    requires
        0 <= k < rs.len(),
        path.len() > 0,
        path[0] == '/',
        forall|j: int|
            0 <= j < rs.len() && j != k ==> !starts_with(rs[k].base, #[trigger] rs[j].base)
                && !starts_with(rs[j].base, rs[k].base),
    ensures
        matched_name(rs[k].base + path, rs) == rs[k].name,
{
    let url = rs[k].base + path;
    let bk = rs[k].base;
    assert(url.subrange(0, bk.len() as int) =~= bk);
    assert(url[bk.len() as int] == path[0]);
    assert(clean_match(url, bk));
    assert forall|j: int|
        #![trigger rs[j]]
        0 <= j < rs.len() && clean_match(url, rs[j].base) implies {
        &&& rs[j].base.len() <= rs[k].base.len()
        &&& (j < k ==> rs[j].base.len() < rs[k].base.len())
    } by {
        if j != k {
            let bj = rs[j].base;
            if bj.len() <= bk.len() {
                assert(bk.subrange(0, bj.len() as int) =~= url.subrange(0, bj.len() as int));
                assert(starts_with(bk, bj));
            } else {
                assert(bj.subrange(0, bk.len() as int) =~= url.subrange(0, bk.len() as int));
                assert(starts_with(bj, bk));
            }
        }
    }
    assert(is_best_match(url, rs, k));
    let c = choose|i: int| is_best_match(url, rs, i);
    lemma_best_match_unique(url, rs, k, c);
}

/// A base that ends inside a path segment does not match a URL that goes on
/// within the same segment (`https://host/foo` does not match
/// `https://host/foobar`), so no remote with that base is the one a URL of
/// that form resolves to.
pub proof fn law_no_match_inside_segment(rs: Seq<RemoteView>, base: Seq<char>, rest: Seq<char>)
    requires
        !ends_with_char(base, '/'),
        !ends_with_char(base, ':'),
        rest.len() > 0,
        rest[0] != '/',
        rest[0] != ':',
    ensures
        !clean_match(base + rest, base),
        forall|i: int| 0 <= i < rs.len() && rs[i].base == base ==> !is_best_match(base + rest, rs, i),
{
    assert((base + rest)[base.len() as int] == rest[0]);
}

/// On a list ordered longest base first, the first clean match in list
/// order is the most specific one.
pub proof fn law_longest_first_order_agrees(url: Seq<char>, rs: Seq<RemoteView>)
    requires
        forall|i: int, j: int|
            0 <= i < j < rs.len() ==> #[trigger] rs[i].base.len() >= #[trigger] rs[j].base.len(),
    ensures
        first_match_name(url, rs) == matched_name(url, rs),
    decreases rs.len(),
{
    if rs.len() == 0 {
        assert(!exists|i: int| is_best_match(url, rs, i));
    } else if clean_match(url, rs[0].base) {
        assert(is_best_match(url, rs, 0));
        let c = choose|i: int| is_best_match(url, rs, i);
        lemma_best_match_unique(url, rs, 0, c);
    } else {
        let tail = rs.drop_first();
        assert forall|i: int, j: int| 0 <= i < j < tail.len() implies #[trigger] tail[i].base.len()
            >= #[trigger] tail[j].base.len() by {
            assert(tail[i] == rs[i + 1]);
            assert(tail[j] == rs[j + 1]);
        }
        law_longest_first_order_agrees(url, tail);
        assert forall|b: int| is_best_match(url, tail, b) implies is_best_match(url, rs, b + 1) by {
            assert forall|j: int|
                #![trigger rs[j]]
                0 <= j < rs.len() && clean_match(url, rs[j].base) implies {
                &&& rs[j].base.len() <= rs[b + 1].base.len()
                &&& (j < b + 1 ==> rs[j].base.len() < rs[b + 1].base.len())
            } by {
                assert(j > 0);
                assert(tail[j - 1] == rs[j]);
            }
        }
        assert forall|b: int| is_best_match(url, rs, b) implies is_best_match(url, tail, b - 1) by {
            assert(b > 0);
            assert forall|j: int|
                #![trigger tail[j]]
                0 <= j < tail.len() && clean_match(url, tail[j].base) implies {
                &&& tail[j].base.len() <= tail[b - 1].base.len()
                &&& (j < b - 1 ==> tail[j].base.len() < tail[b - 1].base.len())
            } by {
                assert(tail[j] == rs[j + 1]);
            }
        }
        if exists|b: int| is_best_match(url, tail, b) {
            let b = choose|b: int| is_best_match(url, tail, b);
            let c = choose|i: int| is_best_match(url, rs, i);
            lemma_best_match_unique(url, rs, b + 1, c);
        } else {
            assert forall|c: int| !is_best_match(url, rs, c) by {
                if is_best_match(url, rs, c) {
                    assert(is_best_match(url, tail, c - 1));
                }
            }
        }
    }
}

} // verus!
