//! Turning the aggregate remote's push URLs into the list of targets to act
//! on: each URL is resolved to a logical name, then the `only` and `except`
//! name filters are applied.

use vstd::prelude::*;
use crate::config::{Config, RemoteView};
use crate::matcher::{match_config_name, matched_name, unnamed, unnamed_name};
use crate::text::{contains_string, views};

verus! {

/// One destination: a push URL and the logical name it resolved to.
pub struct PushTarget {
    pub url: String,
    pub display_name: String,
}

pub struct TargetView {
    pub url: Seq<char>,
    pub name: Seq<char>,
}

impl View for PushTarget {
    type V = TargetView;

    open spec fn view(&self) -> TargetView {
        TargetView { url: self.url@, name: self.display_name@ }
    }
}

pub open spec fn targets_view(ts: Seq<PushTarget>) -> Seq<TargetView> {
    ts.map_values(|t: PushTarget| t@)
}

/// Whether a target named `name` survives the filters. A non-empty `only`
/// keeps just the named targets it lists (never the unnamed ones); a
/// non-empty `except` then drops the named targets it lists.
pub open spec fn passes_filters(
    name: Seq<char>,
    only: Seq<Seq<char>>,
    except: Seq<Seq<char>>,
) -> bool {
    &&& (only.len() == 0 || (name != unnamed() && only.contains(name)))
    &&& (except.len() == 0 || name == unnamed() || !except.contains(name))
}

/// The target that `url` becomes under the saved remotes `rs`.
pub open spec fn resolve(url: Seq<char>, rs: Seq<RemoteView>) -> TargetView {
    TargetView { url, name: matched_name(url, rs) }
}

/// The targets, in URL order, that the filters keep.
pub open spec fn targets_of(
    urls: Seq<Seq<char>>,
    rs: Seq<RemoteView>,
    only: Seq<Seq<char>>,
    except: Seq<Seq<char>>,
) -> Seq<TargetView> {
    urls.map_values(|u: Seq<char>| resolve(u, rs)).filter(
        |t: TargetView| passes_filters(t.name, only, except),
    )
}

/// Why a push run cannot start.
pub enum SetupError {
    /// The repository has no aggregate remote.
    NoAggregateRemote,
    /// The aggregate remote has no push URL.
    NoPushUrls,
    /// The filters left no target.
    NoEligibleTargets,
}

/// Whether a target named `display_name` survives the `only` and `except`
/// filters.
pub fn should_push(display_name: &String, only: &Vec<String>, except: &Vec<String>) -> (r: bool)
    ensures
        r == passes_filters(display_name@, views(only@), views(except@)),
{
    let is_unnamed = *display_name == unnamed_name();
    if only.len() > 0 && (is_unnamed || !contains_string(only, display_name)) {
        return false;
    }
    if except.len() > 0 && !is_unnamed && contains_string(except, display_name) {
        return false;
    }
    true
}

/// Resolves every URL to its logical name and keeps, in order, the targets
/// that pass the filters.
pub fn build_targets(
    urls: &Vec<String>,
    config: &Config,
    only: &Vec<String>,
    except: &Vec<String>,
) -> (r: Vec<PushTarget>)
    ensures
        targets_view(r@) == targets_of(views(urls@), config@, views(only@), views(except@)),
{
    let ghost rs = config@;
    let ghost us = views(urls@);
    let ghost f = |u: Seq<char>| resolve(u, rs);
    let ghost pred = |t: TargetView| passes_filters(t.name, views(only@), views(except@));
    let mut out: Vec<PushTarget> = Vec::new();
    let mut i: usize = 0;
    while i < urls.len()
        invariant
            i <= urls.len(),
            rs == config@,
            us == views(urls@),
            f == (|u: Seq<char>| resolve(u, rs)),
            pred == (|t: TargetView| passes_filters(t.name, views(only@), views(except@))),
            targets_view(out@) == us.subrange(0, i as int).map_values(f).filter(pred),
        decreases urls.len() - i,
    {
        let url = &urls[i];
        let name = match_config_name(config, url.as_str());
        let keep = should_push(&name, only, except);
        let ghost mapped = us.subrange(0, i + 1).map_values(f);
        proof {
            reveal(Seq::filter);
            assert(mapped.drop_last() =~= us.subrange(0, i as int).map_values(f));
            assert(mapped.last() == resolve(url@, rs));
            assert(pred(mapped.last()) == keep);
        }
        if keep {
            let t = PushTarget { url: url.clone(), display_name: name };
            let ghost prev = out@;
            out.push(t);
            proof {
                assert(out@.drop_last() =~= prev);
                assert(targets_view(out@) =~= targets_view(prev).push(t@));
            }
        }
        i = i + 1;
    }
    assert(us.subrange(0, urls.len() as int) =~= us);
    out
}

/// Checks what a push run needs before any target exists: the aggregate
/// remote and at least one push URL. On success returns the filtered
/// targets, which may be empty.
pub fn prepare_targets(
    aggregate_present: bool,
    urls: &Vec<String>,
    config: &Config,
    only: &Vec<String>,
    except: &Vec<String>,
) -> (r: Result<Vec<PushTarget>, SetupError>)
    ensures
        !aggregate_present ==> r == Err::<Vec<PushTarget>, SetupError>(
            SetupError::NoAggregateRemote,
        ),
        aggregate_present && urls.len() == 0 ==> r == Err::<Vec<PushTarget>, SetupError>(
            SetupError::NoPushUrls,
        ),
        aggregate_present && urls.len() > 0 ==> r is Ok && targets_view(r->Ok_0@) == targets_of(
            views(urls@),
            config@,
            views(only@),
            views(except@),
        ),
{
    if !aggregate_present {
        return Err(SetupError::NoAggregateRemote);
    }
    if urls.len() == 0 {
        return Err(SetupError::NoPushUrls);
    }
    Ok(build_targets(urls, config, only, except))
}

/// With `only` naming a single remote, exactly the targets of that name pass.
pub proof fn law_only_keeps_named(name: Seq<char>, a: Seq<char>)
    requires
        a != unnamed(),
    ensures
        passes_filters(name, seq![a], Seq::empty()) <==> name == a,
{
    assert(seq![a][0] == a);
}

/// With `except` naming a single remote, every target passes but those of
/// that name; unnamed targets always pass.
pub proof fn law_except_drops_named(name: Seq<char>, b: Seq<char>)
    ensures
        passes_filters(name, Seq::empty(), seq![b]) <==> (name == unnamed() || name != b),
{
    assert(seq![b][0] == b);
}

/// A name listed in both `only` and `except` never passes, and when `only`
/// and `except` list the same single name, nothing passes.
pub proof fn law_only_then_except(name: Seq<char>, only: Seq<Seq<char>>, except: Seq<Seq<char>>, x: Seq<char>)
    requires
        only.contains(name),
        except.contains(name),
    ensures
        !passes_filters(name, only, except),
        !passes_filters(x, seq![name], seq![name]),
{
    assert(seq![name][0] == name);
    assert(seq![name].contains(x) ==> x == name);
}

} // verus!
