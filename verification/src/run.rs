//! A whole run, seen as the sequence of what arrives at the discovered roots:
//! the repositories of a scan, and the roots of its markers one by one.
//!
//! The scans of a run go side by side, so the order of arrivals is not fixed.
//! What a run leaves, and what it returns, is stated here for every order.

use vstd::prelude::*;
use crate::finder::HitModel;
use crate::marker::classify;
use crate::path::PathModel;
use crate::probe::FileSystem;
use crate::rules::resolve;
use crate::projects::{
    blocked, is_listing, lemma_listing_holds, lemma_offer_keeps_nest_free, listing, nest_free,
    nests, offered, subsumes, truncated_listing,
};

verus! {

/// What arrives at the discovered roots in one step of a run.
pub enum Arrival {
    /// The repositories that the search of a scan found. They become roots,
    /// whatever the set holds.
    Repositories(Seq<PathModel>),
    /// The root of a marker. It is offered to the set.
    Candidate(PathModel),
}

/// The discovered roots after `arrival`.
pub open spec fn arrived(set: Set<PathModel>, arrival: Arrival) -> Set<PathModel> {
    match arrival {
        Arrival::Repositories(repos) => set.union(repos.to_set()),
        Arrival::Candidate(candidate) => offered(set, candidate),
    }
}

/// The discovered roots after the arrivals, one after the other.
pub open spec fn arrived_all(set: Set<PathModel>, arrivals: Seq<Arrival>) -> Set<PathModel>
    decreases arrivals.len(),
{
    if arrivals.len() == 0 {
        set
    } else {
        arrived(arrived_all(set, arrivals.drop_last()), arrivals.last())
    }
}

/// The roots of the markers that a scan processes, in the order of its hits.
/// The scan ends at the first marker whose root cannot be found.
pub open spec fn roots_of(fs: FileSystem, hits: Seq<HitModel>) -> Seq<Arrival>
    decreases hits.len(),
{
    if hits.len() == 0 {
        Seq::empty()
    } else {
        match resolve(fs, classify(hits[0].marker), hits[0].dir) {
            Ok(root) => seq![Arrival::Candidate(root)] + roots_of(fs, hits.drop_first()),
            Err(_) => Seq::empty(),
        }
    }
}

/// What a scan brings, in its order: the repositories that its first search
/// found, then the roots of the markers that its second search found. It is
/// given by the file system and by what the two searches found.
pub open spec fn scan_arrivals(fs: FileSystem, repos: Seq<PathModel>, hits: Seq<HitModel>) -> Seq<
    Arrival,
> {
    seq![Arrival::Repositories(repos)] + roots_of(fs, hits)
}

/// What a run returns that has left `set`: its roots in order, `max` of them
/// at most where `max` is not zero.
pub open spec fn returned(set: Set<PathModel>, max: nat) -> Seq<PathModel> {
    truncated_listing(set, max)
}

/// The roots of `set` can be listed in order. This holds of every set that a
/// finder has discovered.
pub open spec fn listable(set: Set<PathModel>) -> bool {
    is_listing(listing(set), set)
}

/// `repo` is among the repositories that arrive.
pub open spec fn arrives_as_repository(arrivals: Seq<Arrival>, repo: PathModel) -> bool {
    exists|i: int|
        0 <= i < arrivals.len() && (#[trigger] arrivals[i] matches Arrival::Repositories(repos)
            && repos.contains(repo))
}

/// `candidate` is among the roots of markers that arrive.
pub open spec fn arrives_as_candidate(arrivals: Seq<Arrival>, candidate: PathModel) -> bool {
    exists|i: int|
        0 <= i < arrivals.len() && #[trigger] arrivals[i] == Arrival::Candidate(candidate)
}

/// Nothing that arrives nests the root of a marker that arrives.
pub open spec fn unnested(arrivals: Seq<Arrival>) -> bool {
    forall|outer: PathModel, inner: PathModel|
        (arrives_as_repository(arrivals, outer) || arrives_as_candidate(arrivals, outer))
            && arrives_as_candidate(arrivals, inner) ==> !#[trigger] nests(outer, inner)
}

/// Both runs bring the same repositories and the same roots of markers, in
/// whatever order and however often.
pub open spec fn same_arrivals(first: Seq<Arrival>, second: Seq<Arrival>) -> bool {
    forall|path: PathModel|
        #![trigger arrives_as_repository(first, path)]
        #![trigger arrives_as_candidate(first, path)]
        #![trigger arrives_as_repository(second, path)]
        #![trigger arrives_as_candidate(second, path)]
        (arrives_as_repository(first, path) <==> arrives_as_repository(second, path)) && (
        arrives_as_candidate(first, path) <==> arrives_as_candidate(second, path))
}

/// What a run leaves where nothing that arrives nests the root of a marker:
/// the roots it began with, every repository, and every root of a marker
/// that no root it began with keeps out.
pub open spec fn left_by(set: Set<PathModel>, arrivals: Seq<Arrival>) -> Set<PathModel> {
    Set::new(
        |path: PathModel|
            set.contains(path) || arrives_as_repository(arrivals, path) || (arrives_as_candidate(
                arrivals,
                path,
            ) && !blocked(set, path)),
    )
}

/// No arrival removes a root.
pub proof fn lemma_arrivals_keep_roots(set: Set<PathModel>, arrivals: Seq<Arrival>)
    ensures
        set.subset_of(arrived_all(set, arrivals)),
    decreases arrivals.len(),
{
    if arrivals.len() > 0 {
        lemma_arrivals_keep_roots(set, arrivals.drop_last());
    }
}

/// A repository that a scan found is a root at the end of the run, whatever
/// else arrives, before or after, and whatever the roots of markers are.
pub proof fn lemma_repository_is_discovered(
    set: Set<PathModel>,
    arrivals: Seq<Arrival>,
    repo: PathModel,
)
    requires
        arrives_as_repository(arrivals, repo),
    ensures
        arrived_all(set, arrivals).contains(repo),
    decreases arrivals.len(),
{
    let i = choose|i: int|
        0 <= i < arrivals.len() && (#[trigger] arrivals[i] matches Arrival::Repositories(repos)
            && repos.contains(repo));
    let earlier = arrivals.drop_last();
    if i == arrivals.len() - 1 {
        let repos = arrivals.last()->Repositories_0;
        assert(repos.to_set().contains(repo));
    } else {
        assert(earlier[i] == arrivals[i]);
        lemma_repository_is_discovered(set, earlier, repo);
    }
}

/// A run without a limit returns every repository that a scan found.
pub proof fn lemma_repository_is_returned(
    set: Set<PathModel>,
    arrivals: Seq<Arrival>,
    repo: PathModel,
)
    requires
        arrives_as_repository(arrivals, repo),
        listable(arrived_all(set, arrivals)),
    ensures
        returned(arrived_all(set, arrivals), 0).contains(repo),
{
    let after = arrived_all(set, arrivals);
    lemma_repository_is_discovered(set, arrivals, repo);
    lemma_listing_holds(listing(after), after, repo);
}

/// To a set that holds what a run left, the same arrivals add nothing.
pub proof fn lemma_arrivals_settled(
    start: Set<PathModel>,
    arrivals: Seq<Arrival>,
    later: Set<PathModel>,
)
    requires
        arrived_all(start, arrivals).subset_of(later),
    ensures
        arrived_all(later, arrivals) == later,
    decreases arrivals.len(),
{
    if arrivals.len() > 0 {
        let earlier = arrivals.drop_last();
        let middle = arrived_all(start, earlier);
        assert(middle.subset_of(arrived(middle, arrivals.last())));
        lemma_arrivals_settled(start, earlier, later);
        match arrivals.last() {
            Arrival::Repositories(repos) => {
                assert(later.union(repos.to_set()) =~= later);
            },
            Arrival::Candidate(candidate) => {
                if blocked(middle, candidate) {
                    let root = choose|root: PathModel|
                        middle.contains(root) && #[trigger] subsumes(root, candidate);
                    assert(later.contains(root));
                } else {
                    assert(subsumes(candidate, candidate));
                    assert(middle.insert(candidate).contains(candidate));
                    assert(later.contains(candidate));
                }
            },
        }
    }
}

/// A second run in which the same arrives changes nothing: it leaves the
/// same roots and returns the same list.
pub proof fn lemma_run_again(set: Set<PathModel>, arrivals: Seq<Arrival>, max: nat)
    ensures
        arrived_all(arrived_all(set, arrivals), arrivals) == arrived_all(set, arrivals),
        returned(arrived_all(arrived_all(set, arrivals), arrivals), max) == returned(
            arrived_all(set, arrivals),
            max,
        ),
{
    lemma_arrivals_settled(set, arrivals, arrived_all(set, arrivals));
}

/// A second scan of a directory, with the file system and what the searches
/// find unchanged, leaves the roots and the returned list as the first left
/// them.
pub proof fn lemma_scan_again(
    fs: FileSystem,
    set: Set<PathModel>,
    repos: Seq<PathModel>,
    hits: Seq<HitModel>,
    max: nat,
)
    ensures
        returned(
            arrived_all(
                arrived_all(set, scan_arrivals(fs, repos, hits)),
                scan_arrivals(fs, repos, hits),
            ),
            max,
        ) == returned(arrived_all(set, scan_arrivals(fs, repos, hits)), max),
{
    lemma_run_again(set, scan_arrivals(fs, repos, hits), max);
}

/// A repository that the first search of a scan found is a root after the
/// scan, whatever the roots of the markers are. A run without a limit
/// returns it.
pub proof fn lemma_scan_discovers_repository(
    fs: FileSystem,
    set: Set<PathModel>,
    repos: Seq<PathModel>,
    hits: Seq<HitModel>,
    repo: PathModel,
)
    requires
        repos.contains(repo),
    ensures
        arrived_all(set, scan_arrivals(fs, repos, hits)).contains(repo),
        listable(arrived_all(set, scan_arrivals(fs, repos, hits))) ==> returned(
            arrived_all(set, scan_arrivals(fs, repos, hits)),
            0,
        ).contains(repo),
{
    let arrivals = scan_arrivals(fs, repos, hits);
    assert(arrivals[0] == Arrival::Repositories(repos));
    assert(arrives_as_repository(arrivals, repo));
    lemma_repository_is_discovered(set, arrivals, repo);
    if listable(arrived_all(set, arrivals)) {
        lemma_repository_is_returned(set, arrivals, repo);
    }
}

/// What arrives in a run is what arrives before its last arrival, and that arrival.
proof fn lemma_arrives_unfold(arrivals: Seq<Arrival>, path: PathModel)
    requires
        arrivals.len() > 0,
    ensures
        arrives_as_repository(arrivals, path) <==> arrives_as_repository(
            arrivals.drop_last(),
            path,
        ) || (arrivals.last() matches Arrival::Repositories(repos) && repos.contains(path)),
        arrives_as_candidate(arrivals, path) <==> arrives_as_candidate(arrivals.drop_last(), path)
            || arrivals.last() == Arrival::Candidate(path),
{
    let earlier = arrivals.drop_last();
    let last = arrivals.len() - 1;
    if arrives_as_repository(arrivals, path) {
        let i = choose|i: int|
            0 <= i < arrivals.len() && (#[trigger] arrivals[i] matches Arrival::Repositories(repos)
                && repos.contains(path));
        if i < last {
            assert(earlier[i] == arrivals[i]);
        }
    }
    if arrives_as_repository(earlier, path) {
        let i = choose|i: int|
            0 <= i < earlier.len() && (#[trigger] earlier[i] matches Arrival::Repositories(repos)
                && repos.contains(path));
        assert(arrivals[i] == earlier[i]);
    }
    if arrivals.last() matches Arrival::Repositories(repos) && repos.contains(path) {
        assert(arrivals[last] == arrivals.last());
    }
    if arrives_as_candidate(arrivals, path) {
        let i = choose|i: int|
            0 <= i < arrivals.len() && #[trigger] arrivals[i] == Arrival::Candidate(path);
        if i < last {
            assert(earlier[i] == arrivals[i]);
        }
    }
    if arrives_as_candidate(earlier, path) {
        let i = choose|i: int|
            0 <= i < earlier.len() && #[trigger] earlier[i] == Arrival::Candidate(path);
        assert(arrivals[i] == earlier[i]);
    }
    if arrivals.last() == Arrival::Candidate(path) {
        assert(arrivals[last] == arrivals.last());
    }
}

/// Where nothing that arrives nests the root of a marker, a run leaves the
/// roots it began with, every repository, and every root of a marker that no
/// root it began with keeps out: in whatever order they arrive.
pub proof fn lemma_run_leaves(set: Set<PathModel>, arrivals: Seq<Arrival>)
    requires
        unnested(arrivals),
    ensures
        arrived_all(set, arrivals) == left_by(set, arrivals),
    decreases arrivals.len(),
{
    if arrivals.len() == 0 {
        assert(left_by(set, arrivals) =~= set);
    } else {
        let earlier = arrivals.drop_last();
        assert forall|path: PathModel|
            (arrives_as_repository(earlier, path) ==> arrives_as_repository(arrivals, path)) && (
            arrives_as_candidate(earlier, path) ==> arrives_as_candidate(arrivals, path)) by {
            lemma_arrives_unfold(arrivals, path);
        }
        assert(unnested(earlier));
        lemma_run_leaves(set, earlier);
        let middle = arrived_all(set, earlier);
        assert forall|path: PathModel|
            arrived_all(set, arrivals).contains(path) <==> left_by(set, arrivals).contains(
                path,
            ) by {
            lemma_arrives_unfold(arrivals, path);
            match arrivals.last() {
                Arrival::Repositories(repos) => {
                    assert(repos.to_set().contains(path) <==> repos.contains(path));
                },
                Arrival::Candidate(candidate) => {
                    lemma_arrives_unfold(arrivals, candidate);
                    assert(arrives_as_candidate(arrivals, candidate));
                    if blocked(middle, candidate) {
                        let root = choose|root: PathModel|
                            middle.contains(root) && #[trigger] subsumes(root, candidate);
                        if !set.contains(root) {
                            assert(!nests(root, candidate));
                            assert(root == candidate);
                        }
                    }
                    if blocked(set, candidate) {
                        let root = choose|root: PathModel|
                            set.contains(root) && #[trigger] subsumes(root, candidate);
                        assert(middle.contains(root));
                    }
                    if middle.contains(candidate) {
                        assert(subsumes(candidate, candidate));
                    }
                },
            }
        }
        assert(arrived_all(set, arrivals) =~= left_by(set, arrivals));
    }
}

/// Where nothing that arrives nests the root of a marker, two runs in which
/// the same arrives leave the same roots and return the same list: the order
/// in which scans are begun and ended, and how many go side by side, makes
/// no difference.
pub proof fn lemma_run_in_any_order(
    set: Set<PathModel>,
    first: Seq<Arrival>,
    second: Seq<Arrival>,
    max: nat,
)
    requires
        unnested(first),
        same_arrivals(first, second),
    ensures
        arrived_all(set, first) == arrived_all(set, second),
        returned(arrived_all(set, first), max) == returned(arrived_all(set, second), max),
{
    assert(unnested(second)) by {
        assert forall|outer: PathModel, inner: PathModel|
            (arrives_as_repository(second, outer) || arrives_as_candidate(second, outer))
                && arrives_as_candidate(second, inner) implies !#[trigger] nests(outer, inner) by {
            assert(arrives_as_repository(first, outer) || arrives_as_candidate(first, outer));
            assert(arrives_as_candidate(first, inner));
        }
    }
    lemma_run_leaves(set, first);
    lemma_run_leaves(set, second);
    assert(left_by(set, first) =~= left_by(set, second));
}

/// What arrives in one run after the other arrives in the two together.
proof fn lemma_arrives_in_either(first: Seq<Arrival>, second: Seq<Arrival>, path: PathModel)
    ensures
        arrives_as_repository(first + second, path) <==> arrives_as_repository(first, path)
            || arrives_as_repository(second, path),
        arrives_as_candidate(first + second, path) <==> arrives_as_candidate(first, path)
            || arrives_as_candidate(second, path),
    decreases second.len(),
{
    if second.len() == 0 {
        assert(first + second =~= first);
    } else {
        let both = first + second;
        assert(both.drop_last() =~= first + second.drop_last());
        assert(both.last() == second.last());
        lemma_arrives_in_either(first, second.drop_last(), path);
        lemma_arrives_unfold(both, path);
        lemma_arrives_unfold(second, path);
    }
}

/// Where nothing that arrives nests the root of a marker, two scans may go
/// one after the other in either order: the run leaves the same roots and
/// returns the same list.
pub proof fn lemma_scans_in_either_order(
    set: Set<PathModel>,
    one: Seq<Arrival>,
    other: Seq<Arrival>,
    max: nat,
)
    requires
        unnested(one + other),
    ensures
        arrived_all(set, one + other) == arrived_all(set, other + one),
        returned(arrived_all(set, one + other), max) == returned(
            arrived_all(set, other + one),
            max,
        ),
{
    assert(same_arrivals(one + other, other + one)) by {
        assert forall|path: PathModel|
            (arrives_as_repository(one + other, path) <==> arrives_as_repository(
                other + one,
                path,
            )) && (arrives_as_candidate(one + other, path) <==> arrives_as_candidate(
                other + one,
                path,
            )) by {
            lemma_arrives_in_either(one, other, path);
            lemma_arrives_in_either(other, one, path);
        }
    }
    lemma_run_in_any_order(set, one + other, other + one, max);
}

/// An arrival is orderly for `set` if it brings no root that nests, or lies
/// nested in, another: a repository that is new to the set nests no root of
/// the set and none of the other repositories, and none of them nests it;
/// the root of a marker that enters the set nests no root of the set.
pub open spec fn orderly(set: Set<PathModel>, arrival: Arrival) -> bool {
    match arrival {
        Arrival::Repositories(repos) => forall|repo: PathModel, other: PathModel|
            #![trigger nests(repo, other)]
            #![trigger nests(other, repo)]
            repos.contains(repo) && !set.contains(repo) && (set.contains(other) || repos.contains(
                other,
            )) ==> !nests(repo, other) && !nests(other, repo),
        Arrival::Candidate(candidate) => blocked(set, candidate) || forall|root: PathModel|
            set.contains(root) ==> !#[trigger] nests(candidate, root),
    }
}

/// Every arrival is orderly for the roots that it finds.
pub open spec fn orderly_all(set: Set<PathModel>, arrivals: Seq<Arrival>) -> bool
    decreases arrivals.len(),
{
    arrivals.len() > 0 ==> orderly_all(set, arrivals.drop_last()) && orderly(
        arrived_all(set, arrivals.drop_last()),
        arrivals.last(),
    )
}

/// An orderly arrival keeps a set free of nested roots.
pub proof fn lemma_arrival_keeps_nest_free(set: Set<PathModel>, arrival: Arrival)
    requires
        nest_free(set),
        orderly(set, arrival),
    ensures
        nest_free(arrived(set, arrival)),
{
    match arrival {
        Arrival::Repositories(repos) => {
            let after = set.union(repos.to_set());
            assert forall|outer: PathModel, inner: PathModel|
                after.contains(outer) && after.contains(inner) implies !#[trigger] nests(
                outer,
                inner,
            ) by {
                assert(repos.to_set().contains(outer) <==> repos.contains(outer));
                assert(repos.to_set().contains(inner) <==> repos.contains(inner));
                if !set.contains(outer) {
                    assert(!nests(outer, inner));
                } else if !set.contains(inner) {
                    assert(!nests(outer, inner));
                }
            }
        },
        Arrival::Candidate(candidate) => {
            if !blocked(set, candidate) {
                lemma_offer_keeps_nest_free(set, candidate);
            }
        },
    }
}

/// A run of orderly arrivals leaves no root nested in another.
pub proof fn lemma_run_keeps_nest_free(set: Set<PathModel>, arrivals: Seq<Arrival>)
    requires
        nest_free(set),
        orderly_all(set, arrivals),
    ensures
        nest_free(arrived_all(set, arrivals)),
    decreases arrivals.len(),
{
    if arrivals.len() > 0 {
        lemma_run_keeps_nest_free(set, arrivals.drop_last());
        lemma_arrival_keeps_nest_free(
            arrived_all(set, arrivals.drop_last()),
            arrivals.last(),
        );
    }
}

/// The list that a run of orderly arrivals returns holds no path that lies
/// below another of the list without being its direct child.
pub proof fn lemma_returned_nest_free(
    set: Set<PathModel>,
    arrivals: Seq<Arrival>,
    max: nat,
    i: int,
    j: int,
)
    requires
        nest_free(set),
        orderly_all(set, arrivals),
        listable(arrived_all(set, arrivals)),
        0 <= i < returned(arrived_all(set, arrivals), max).len(),
        0 <= j < returned(arrived_all(set, arrivals), max).len(),
    ensures
        !nests(
            returned(arrived_all(set, arrivals), max)[i],
            returned(arrived_all(set, arrivals), max)[j],
        ),
{
    let after = arrived_all(set, arrivals);
    let all = listing(after);
    lemma_run_keeps_nest_free(set, arrivals);
    assert(all.contains(all[i]) && all.contains(all[j]));
    lemma_listing_holds(all, after, all[i]);
    lemma_listing_holds(all, after, all[j]);
}

} // verus!
