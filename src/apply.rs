//! Planning how the saved remotes are applied to a repository: stale
//! single remotes are dropped and one aggregate remote is set up whose push
//! URLs are the mirrors.

use vstd::prelude::*;
use crate::config::{Config, RemoteView};
use crate::text::{chars_of, contains_string, ends_with, trim, trim_of, views};
use crate::utils::{build_remote_url, remote_url};

verus! {

/// The name of the aggregate remote whose push URLs are the mirrors.
pub const AGGREGATE_REMOTE: &'static str = "yewpb";

/// One mirror of the aggregate remote.
pub struct Mirror {
    pub name: String,
    pub url: String,
}

/// What applying the saved remotes does, in order: remove the remotes in
/// `remove`, add the aggregate remote with the first mirror's URL as its
/// fetch URL, then add every mirror's URL as a push URL.
pub struct ApplyPlan {
    pub remove: Vec<String>,
    pub mirrors: Vec<Mirror>,
}

/// The remotes to remove: each saved remote that exists under its own name
/// (other than the aggregate), in saved order, then the aggregate remote
/// when it exists.
pub open spec fn removals_of(rs: Seq<RemoteView>, existing: Seq<Seq<char>>) -> Seq<Seq<char>> {
    rs.filter(|r: RemoteView| existing.contains(r.name) && r.name != AGGREGATE_REMOTE@).map_values(
        |r: RemoteView| r.name,
    ) + if existing.contains(AGGREGATE_REMOTE@) {
        seq![AGGREGATE_REMOTE@]
    } else {
        Seq::empty()
    }
}

/// The mirrors: each saved remote with the URL of `repo` under its base.
pub open spec fn mirrors_of(rs: Seq<RemoteView>, repo: Seq<char>) -> Seq<(Seq<char>, Seq<char>)> {
    rs.map_values(|r: RemoteView| (r.name, remote_url(r.base, repo)))
}

/// Plans applying the saved remotes for repository `repo` to a repository
/// whose remotes are `existing`.
pub fn apply_plan(config: &Config, existing: &Vec<String>, repo: &str) -> (p: ApplyPlan)
    ensures
        views(p.remove@) == removals_of(config@, views(existing@)),
        p.mirrors@.map_values(|m: Mirror| (m.name@, m.url@)) == mirrors_of(config@, repo@),
{
    let ghost rs = config@;
    let ghost ex = views(existing@);
    let ghost pred = |r: RemoteView| ex.contains(r.name) && r.name != AGGREGATE_REMOTE@;
    let ghost name_of = |r: RemoteView| r.name;
    let ghost mirror_of = |r: RemoteView| (r.name, remote_url(r.base, repo@));
    let aggregate = AGGREGATE_REMOTE.to_owned();
    let mut remove: Vec<String> = Vec::new();
    let mut mirrors: Vec<Mirror> = Vec::new();
    let mut i: usize = 0;
    while i < config.remotes.len()
        invariant
            i <= config.remotes.len(),
            rs == config@,
            ex == views(existing@),
            aggregate@ == AGGREGATE_REMOTE@,
            pred == (|r: RemoteView| ex.contains(r.name) && r.name != AGGREGATE_REMOTE@),
            name_of == (|r: RemoteView| r.name),
            mirror_of == (|r: RemoteView| (r.name, remote_url(r.base, repo@))),
            views(remove@) == rs.subrange(0, i as int).filter(pred).map_values(name_of),
            mirrors@.map_values(|m: Mirror| (m.name@, m.url@)) == rs.subrange(0, i as int).map_values(
                mirror_of,
            ),
        decreases config.remotes.len() - i,
    {
        let r = &config.remotes[i];
        let ghost pre = rs.subrange(0, i as int);
        let ghost cur = rs.subrange(0, i + 1);
        proof {
            reveal(Seq::filter);
            assert(cur.drop_last() =~= pre);
            assert(cur.last() == r@);
        }
        let drop = contains_string(existing, &r.name) && !(r.name == aggregate);
        assert(drop == pred(r@));
        if drop {
            let ghost prev = remove@;
            remove.push(r.name.clone());
            proof {
                assert(views(remove@) =~= views(prev).push(r@.name));
                assert(cur.filter(pred) == pre.filter(pred).push(r@));
                assert(cur.filter(pred).map_values(name_of) =~= pre.filter(pred).map_values(
                    name_of,
                ).push(r@.name));
            }
        } else {
            assert(cur.filter(pred) == pre.filter(pred));
        }
        let m = Mirror { name: r.name.clone(), url: build_remote_url(r.base.as_str(), repo) };
        let ghost prev_m = mirrors@;
        mirrors.push(m);
        proof {
            assert(mirrors@.map_values(|m: Mirror| (m.name@, m.url@)) =~= prev_m.map_values(
                |m: Mirror| (m.name@, m.url@),
            ).push((m.name@, m.url@)));
            assert(cur.map_values(mirror_of) =~= pre.map_values(mirror_of).push(mirror_of(r@)));
        }
        i = i + 1;
    }
    proof {
        assert(rs.subrange(0, config.remotes.len() as int) =~= rs);
    }
    if contains_string(existing, &aggregate) {
        let ghost prev = remove@;
        remove.push(aggregate);
        proof {
            assert(views(remove@) =~= views(prev) + seq![AGGREGATE_REMOTE@]);
        }
    } else {
        assert(views(remove@) =~= views(remove@) + Seq::<Seq<char>>::empty());
    }
    ApplyPlan { remove, mirrors }
}

/// The repository name a remote URL points at: the last `/`-separated part
/// of the trimmed URL without one trailing `.git`, when that part is not
/// empty.
pub open spec fn repo_name_of(url: Seq<char>) -> Option<Seq<char>> {
    let t = trim_of(url);
    let u = if ends_with(t, ".git"@) {
        t.subrange(0, t.len() - 4)
    } else {
        t
    };
    let cut = last_slash(u);
    let name = u.subrange(cut + 1, u.len() as int);
    if name.len() > 0 {
        Some(name)
    } else {
        None
    }
}

/// The index of the last `/` in `s`, or -1.
pub open spec fn last_slash(s: Seq<char>) -> int
    decreases s.len(),
{
    if s.len() == 0 {
        -1
    } else if s.last() == '/' {
        s.len() - 1
    } else {
        last_slash(s.drop_last())
    }
}

/// The repository name that remote URL `url` points at.
pub fn repo_name_from_url(url: &str) -> (r: Option<String>)
    ensures
        match r {
            Some(name) => repo_name_of(url@) == Some(name@),
            None => repo_name_of(url@) is None,
        },
{
    proof {
        reveal_strlit(".git");
    }
    let t = trim(url);
    let cs = chars_of(t);
    let n = cs.len();
    let has_git = n >= 4 && cs[n - 4] == '.' && cs[n - 3] == 'g' && cs[n - 2] == 'i' && cs[n - 1]
        == 't';
    assert(has_git == ends_with(cs@, ".git"@)) by {
        if n >= 4 {
            let tail = cs@.subrange(n - 4, n as int);
            assert(tail[0] == cs@[n - 4]);
            assert(tail[1] == cs@[n - 3]);
            assert(tail[2] == cs@[n - 2]);
            assert(tail[3] == cs@[n - 1]);
            if has_git {
                assert(tail =~= ".git"@);
            }
        }
    }
    let end = if has_git {
        n - 4
    } else {
        n
    };
    let ghost u = cs@.subrange(0, end as int);
    let mut j: usize = end;
    assert(u.subrange(0, end as int) =~= u);
    while j > 0 && cs[j - 1] != '/'
        invariant
            j <= end <= n,
            n == cs@.len(),
            u == cs@.subrange(0, end as int),
            last_slash(u) == last_slash(u.subrange(0, j as int)),
        decreases j,
    {
        assert(u.subrange(0, j as int).drop_last() =~= u.subrange(0, j - 1));
        j = j - 1;
    }
    proof {
        if j > 0 {
            assert(u.subrange(0, j as int).last() == '/');
        }
        assert(last_slash(u) == j - 1);
    }
    assert(u.subrange(j as int, u.len() as int) =~= cs@.subrange(j as int, end as int));
    if j == end {
        assert(trim_of(url@) == cs@);
        assert(u == (if ends_with(cs@, ".git"@) {
            cs@.subrange(0, cs@.len() - 4)
        } else {
            cs@
        }));
        None
    } else {
        let name = t.substring_char(j, end).to_owned();
        assert(name@ == u.subrange(last_slash(u) + 1, u.len() as int));
        assert(trim_of(url@) == cs@);
        assert(u == (if ends_with(cs@, ".git"@) {
            cs@.subrange(0, cs@.len() - 4)
        } else {
            cs@
        }));
        assert(name@.len() > 0);
        Some(name)
    }
}

} // verus!
