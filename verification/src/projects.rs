//! The set of discovered project roots, the rule by which a root enters it,
//! and its listing in order.

use vstd::prelude::*;
use crate::order::{strict_total, Order};
use crate::path::{lemma_path_order, path_order, PathModel, ProjectPath};

verus! {

/// The models of a run of paths.
pub open spec fn path_models(paths: Seq<ProjectPath>) -> Seq<PathModel> {
    Seq::new(paths.len(), |i: int| paths[i]@)
}

/// `inner` lies below `outer` and is not its direct child.
pub open spec fn nests(outer: PathModel, inner: PathModel) -> bool {
    inner != outer && inner.starts_with(outer) && inner.parent() != Some(outer)
}

/// A known root keeps `candidate` out of the set: the candidate is that root,
/// or lies below it and is not its direct child.
pub open spec fn subsumes(known: PathModel, candidate: PathModel) -> bool {
    candidate == known || nests(known, candidate)
}

/// Some root of the set keeps `candidate` out.
pub open spec fn blocked(set: Set<PathModel>, candidate: PathModel) -> bool {
    exists|known: PathModel| set.contains(known) && #[trigger] subsumes(known, candidate)
}

/// The set after `candidate` is offered to it: the candidate enters unless a
/// root of the set keeps it out.
pub open spec fn offered(set: Set<PathModel>, candidate: PathModel) -> Set<PathModel> {
    if blocked(set, candidate) {
        set
    } else {
        set.insert(candidate)
    }
}

/// The set after the candidates are offered to it one after the other.
pub open spec fn offered_all(set: Set<PathModel>, candidates: Seq<PathModel>) -> Set<PathModel>
    decreases candidates.len(),
{
    if candidates.len() == 0 {
        set
    } else {
        offered(offered_all(set, candidates.drop_last()), candidates.last())
    }
}

/// Each path sorts before those that follow it.
pub open spec fn ascending(paths: Seq<PathModel>) -> bool {
    forall|i: int, j: int| 0 <= i < j < paths.len() ==> (#[trigger] paths[i]).precedes(#[trigger] paths[j])
}

/// `paths` holds the members of `set`, each once, in order.
pub open spec fn is_listing(paths: Seq<PathModel>, set: Set<PathModel>) -> bool {
    ascending(paths) && paths.to_set() == set
}

/// The members of `set` in order.
pub open spec fn listing(set: Set<PathModel>) -> Seq<PathModel> {
    choose|paths: Seq<PathModel>| is_listing(paths, set)
}

/// The first `max` paths of the listing of `set`; all of them where `max` is zero.
pub open spec fn truncated_listing(set: Set<PathModel>, max: nat) -> Seq<PathModel> {
    if max > 0 && listing(set).len() > max {
        listing(set).take(max as int)
    } else {
        listing(set)
    }
}

/// A set has one listing at most.
pub proof fn lemma_listing_unique(a: Seq<PathModel>, b: Seq<PathModel>, set: Set<PathModel>)
    requires
        is_listing(a, set),
        is_listing(b, set),
    ensures
        a == b,
    decreases a.len(),
{
    lemma_path_order();
    let lt = path_order();
    if a.len() == 0 {
        if b.len() > 0 {
            assert(b.contains(b[0]));
            assert(b.to_set().contains(b[0]));
            assert(a.contains(b[0]));
        }
        assert(a =~= b);
    } else {
        let x = a.last();
        assert(a.contains(x));
        assert(a.to_set().contains(x));
        assert(b.contains(x));
        let j = choose|j: int| 0 <= j < b.len() && b[j] == x;
        let y = b.last();
        assert(b.contains(y));
        assert(b.to_set().contains(y));
        assert(a.contains(y));
        let i = choose|i: int| 0 <= i < a.len() && a[i] == y;
        if j < b.len() - 1 {
            assert(lt(b[j], b[b.len() - 1]));
            if i < a.len() - 1 {
                assert(lt(a[i], a[a.len() - 1]));
                assert(lt(x, x));
            }
            assert(lt(x, x));
        }
        assert(x == y);
        let a0 = a.drop_last();
        let b0 = b.drop_last();
        let rest = set.remove(x);
        assert(a0.to_set() =~= rest) by {
            assert forall|p: PathModel| a0.to_set().contains(p) <==> rest.contains(p) by {
                if a0.contains(p) {
                    let k = choose|k: int| 0 <= k < a0.len() && a0[k] == p;
                    assert(a[k] == p);
                    assert(a.contains(p));
                    assert(lt(a[k], a[a.len() - 1]));
                    assert(!lt(x, x));
                }
                if rest.contains(p) {
                    assert(a.to_set().contains(p));
                    let k = choose|k: int| 0 <= k < a.len() && a[k] == p;
                    assert(a0[k] == p);
                }
            }
        }
        assert(b0.to_set() =~= rest) by {
            assert forall|p: PathModel| b0.to_set().contains(p) <==> rest.contains(p) by {
                if b0.contains(p) {
                    let k = choose|k: int| 0 <= k < b0.len() && b0[k] == p;
                    assert(b[k] == p);
                    assert(b.contains(p));
                    assert(lt(b[k], b[b.len() - 1]));
                    assert(!lt(x, x));
                }
                if rest.contains(p) {
                    assert(b.to_set().contains(p));
                    let k = choose|k: int| 0 <= k < b.len() && b[k] == p;
                    assert(b0[k] == p);
                }
            }
        }
        assert(ascending(a0)) by {
            assert forall|i: int, j: int| 0 <= i < j < a0.len() implies (#[trigger] a0[i]).precedes(
                #[trigger] a0[j],
            ) by {
                assert(a[i].precedes(a[j]));
            }
        }
        assert(ascending(b0)) by {
            assert forall|i: int, j: int| 0 <= i < j < b0.len() implies (#[trigger] b0[i]).precedes(
                #[trigger] b0[j],
            ) by {
                assert(b[i].precedes(b[j]));
            }
        }
        lemma_listing_unique(a0, b0, rest);
        assert(a =~= a0.push(x));
        assert(b =~= b0.push(y));
    }
}

/// A sequence in order that holds the members of `set` is the listing of `set`.
pub proof fn lemma_listing_is(paths: Seq<PathModel>, set: Set<PathModel>)
    requires
        is_listing(paths, set),
    ensures
        listing(set) == paths,
{
    lemma_listing_unique(listing(set), paths, set);
}

/// No root of the set lies below another without being its direct child.
pub open spec fn nest_free(set: Set<PathModel>) -> bool {
    forall|outer: PathModel, inner: PathModel|
        set.contains(outer) && set.contains(inner) ==> !#[trigger] nests(outer, inner)
}

/// No candidate lies below another without being its direct child.
pub open spec fn independent(candidates: Seq<PathModel>) -> bool {
    forall|i: int, j: int|
        0 <= i < candidates.len() && 0 <= j < candidates.len() ==> !nests(
            #[trigger] candidates[i],
            #[trigger] candidates[j],
        )
}

/// A candidate that lies below a root of the set, and is not its direct
/// child, does not enter the set.
pub proof fn lemma_nested_stays_out(set: Set<PathModel>, root: PathModel, candidate: PathModel)
    requires
        set.contains(root),
        nests(root, candidate),
    ensures
        offered(set, candidate) == set,
{
    assert(subsumes(root, candidate));
}

/// A set in which no root nests another stays so when a candidate is offered
/// that nests none of its roots.
pub proof fn lemma_offer_keeps_nest_free(set: Set<PathModel>, candidate: PathModel)
    requires
        nest_free(set),
        forall|root: PathModel| set.contains(root) ==> !#[trigger] nests(candidate, root),
    ensures
        nest_free(offered(set, candidate)),
{
    let after = offered(set, candidate);
    assert forall|outer: PathModel, inner: PathModel|
        after.contains(outer) && after.contains(inner) implies !#[trigger] nests(outer, inner) by {
        if nests(outer, inner) {
            if inner == candidate && set.contains(outer) {
                assert(subsumes(outer, candidate));
            }
        }
    }
}

/// Offering a candidate removes no root.
pub proof fn lemma_offer_keeps_roots(set: Set<PathModel>, candidate: PathModel)
    ensures
        set.subset_of(offered(set, candidate)),
{
}

/// Offering candidates removes no root.
pub proof fn lemma_offer_all_keeps_roots(set: Set<PathModel>, candidates: Seq<PathModel>)
    ensures
        set.subset_of(offered_all(set, candidates)),
    decreases candidates.len(),
{
    if candidates.len() > 0 {
        lemma_offer_all_keeps_roots(set, candidates.drop_last());
    }
}

/// Offering a candidate a second time changes nothing.
pub proof fn lemma_offer_twice(set: Set<PathModel>, candidate: PathModel)
    ensures
        offered(offered(set, candidate), candidate) == offered(set, candidate),
{
    if !blocked(set, candidate) {
        assert(subsumes(candidate, candidate));
        assert(set.insert(candidate).contains(candidate));
    }
}

/// To a set that holds what a run over `candidates` left, a second run over
/// them adds nothing.
pub proof fn lemma_offer_all_settled(
    start: Set<PathModel>,
    candidates: Seq<PathModel>,
    later: Set<PathModel>,
)
    requires
        offered_all(start, candidates).subset_of(later),
    ensures
        offered_all(later, candidates) == later,
    decreases candidates.len(),
{
    if candidates.len() > 0 {
        let earlier = candidates.drop_last();
        let candidate = candidates.last();
        let middle = offered_all(start, earlier);
        lemma_offer_keeps_roots(middle, candidate);
        lemma_offer_all_settled(start, earlier, later);
        if blocked(middle, candidate) {
            let root = choose|root: PathModel|
                middle.contains(root) && #[trigger] subsumes(root, candidate);
            assert(later.contains(root));
        } else {
            assert(subsumes(candidate, candidate));
            assert(middle.insert(candidate).contains(candidate));
            assert(later.contains(candidate));
        }
    }
}

/// Running over the same candidates a second time changes nothing.
pub proof fn lemma_offer_all_again(set: Set<PathModel>, candidates: Seq<PathModel>)
    ensures
        offered_all(offered_all(set, candidates), candidates) == offered_all(set, candidates),
{
    lemma_offer_all_settled(set, candidates, offered_all(set, candidates));
}

/// Two candidates of which neither nests the other may be offered in either order.
pub proof fn lemma_offer_commutes(set: Set<PathModel>, a: PathModel, b: PathModel)
    requires
        !nests(a, b),
        !nests(b, a),
    ensures
        offered(offered(set, a), b) == offered(offered(set, b), a),
{
    let after_a = offered(set, a);
    let after_b = offered(set, b);
    if a == b {
    } else {
        assert(blocked(after_a, b) == blocked(set, b)) by {
            if blocked(after_a, b) {
                let root = choose|root: PathModel|
                    after_a.contains(root) && #[trigger] subsumes(root, b);
                assert(set.contains(root));
            }
            if blocked(set, b) {
                let root = choose|root: PathModel| set.contains(root) && #[trigger] subsumes(root, b);
                assert(after_a.contains(root));
            }
        }
        assert(blocked(after_b, a) == blocked(set, a)) by {
            if blocked(after_b, a) {
                let root = choose|root: PathModel|
                    after_b.contains(root) && #[trigger] subsumes(root, a);
                assert(set.contains(root));
            }
            if blocked(set, a) {
                let root = choose|root: PathModel| set.contains(root) && #[trigger] subsumes(root, a);
                assert(after_b.contains(root));
            }
        }
        assert(offered(after_a, b) =~= offered(after_b, a));
    }
}

/// A repository that does not nest a candidate may be made a root before or
/// after the candidate is offered.
pub proof fn lemma_insert_offer_commute(set: Set<PathModel>, repo: PathModel, candidate: PathModel)
    requires
        !nests(repo, candidate),
    ensures
        offered(set.insert(repo), candidate) == offered(set, candidate).insert(repo),
{
    let with_repo = set.insert(repo);
    if blocked(with_repo, candidate) {
        let root = choose|root: PathModel|
            with_repo.contains(root) && #[trigger] subsumes(root, candidate);
        if root == repo {
            assert(candidate == repo);
            if !blocked(set, candidate) {
                assert(set.insert(candidate).insert(repo) =~= with_repo);
            }
        } else {
            assert(set.contains(root));
        }
    } else if blocked(set, candidate) {
        let root = choose|root: PathModel| set.contains(root) && #[trigger] subsumes(root, candidate);
        assert(with_repo.contains(root));
    } else {
        assert(with_repo.insert(candidate) =~= set.insert(candidate).insert(repo));
    }
}

/// The candidates that a run over `candidates` adds to `set`, where none of
/// them nests another: those that no root of `set` keeps out.
pub open spec fn admitted(set: Set<PathModel>, candidates: Seq<PathModel>) -> Set<PathModel> {
    Set::new(|candidate: PathModel| candidates.contains(candidate) && !blocked(set, candidate))
}

/// Where no candidate nests another, a run adds exactly the candidates that
/// no root of the set keeps out, in whatever order they come.
pub proof fn lemma_offer_all_admits(set: Set<PathModel>, candidates: Seq<PathModel>)
    requires
        independent(candidates),
    ensures
        offered_all(set, candidates) == set.union(admitted(set, candidates)),
    decreases candidates.len(),
{
    if candidates.len() == 0 {
        assert(set.union(admitted(set, candidates)) =~= set);
    } else {
        let earlier = candidates.drop_last();
        let candidate = candidates.last();
        let last = candidates.len() - 1;
        assert(independent(earlier)) by {
            assert forall|i: int, j: int|
                0 <= i < earlier.len() && 0 <= j < earlier.len() implies !nests(
                #[trigger] earlier[i],
                #[trigger] earlier[j],
            ) by {
                assert(earlier[i] == candidates[i] && earlier[j] == candidates[j]);
            }
        }
        lemma_offer_all_admits(set, earlier);
        let middle = offered_all(set, earlier);
        assert(blocked(middle, candidate) <==> blocked(set, candidate) || earlier.contains(
            candidate,
        )) by {
            if blocked(middle, candidate) {
                let root = choose|root: PathModel|
                    middle.contains(root) && #[trigger] subsumes(root, candidate);
                if !set.contains(root) {
                    assert(earlier.contains(root));
                    let i = choose|i: int| 0 <= i < earlier.len() && earlier[i] == root;
                    assert(candidates[i] == root);
                    assert(!nests(candidates[i], candidates[last]));
                }
            }
            if blocked(set, candidate) {
                let root = choose|root: PathModel|
                    set.contains(root) && #[trigger] subsumes(root, candidate);
                assert(middle.contains(root));
            } else if earlier.contains(candidate) {
                assert(admitted(set, earlier).contains(candidate));
                assert(subsumes(candidate, candidate));
            }
        }
        assert(offered(middle, candidate) =~= set.union(admitted(set, candidates))) by {
            assert forall|p: PathModel| candidates.contains(p) <==> earlier.contains(p) || p
                == candidate by {
                if candidates.contains(p) {
                    let i = choose|i: int| 0 <= i < candidates.len() && candidates[i] == p;
                    if i < last {
                        assert(earlier[i] == p);
                    }
                }
                if earlier.contains(p) {
                    let i = choose|i: int| 0 <= i < earlier.len() && earlier[i] == p;
                    assert(candidates[i] == p);
                }
                if p == candidate {
                    assert(candidates[last] == p);
                }
            }
        }
    }
}

/// Where no candidate nests another, two runs over the same candidates leave
/// the same set, in whatever order and however often each run offers them.
pub proof fn lemma_order_irrelevant(
    set: Set<PathModel>,
    first: Seq<PathModel>,
    second: Seq<PathModel>,
)
    requires
        independent(first),
        first.to_set() == second.to_set(),
    ensures
        offered_all(set, first) == offered_all(set, second),
{
    assert forall|p: PathModel| first.contains(p) <==> second.contains(p) by {
        assert(first.to_set().contains(p) <==> first.contains(p));
        assert(second.to_set().contains(p) <==> second.contains(p));
    }
    assert(independent(second)) by {
        assert forall|i: int, j: int|
            0 <= i < second.len() && 0 <= j < second.len() implies !nests(
            #[trigger] second[i],
            #[trigger] second[j],
        ) by {
            assert(second.contains(second[i]) && second.contains(second[j]));
            let k = choose|k: int| 0 <= k < first.len() && first[k] == second[i];
            let l = choose|l: int| 0 <= l < first.len() && first[l] == second[j];
            assert(!nests(first[k], first[l]));
        }
    }
    lemma_offer_all_admits(set, first);
    lemma_offer_all_admits(set, second);
    assert(admitted(set, first) =~= admitted(set, second));
}

/// A repository that is made a root stays one, whatever is offered afterwards.
pub proof fn lemma_repository_stays(
    set: Set<PathModel>,
    repos: Seq<PathModel>,
    candidates: Seq<PathModel>,
    repo: PathModel,
)
    requires
        repos.contains(repo),
    ensures
        offered_all(set.union(repos.to_set()), candidates).contains(repo),
{
    assert(repos.to_set().contains(repo));
    lemma_offer_all_keeps_roots(set.union(repos.to_set()), candidates);
}

/// A listing holds exactly the members of its set.
pub proof fn lemma_listing_holds(paths: Seq<PathModel>, set: Set<PathModel>, path: PathModel)
    requires
        is_listing(paths, set),
    ensures
        paths.contains(path) <==> set.contains(path),
{
    assert(paths.to_set().contains(path) <==> paths.contains(path));
}

/// The project roots discovered so far.
#[derive(Debug, Clone)]
pub struct ProjectSet {
    roots: Vec<ProjectPath>,
}

impl View for ProjectSet {
    type V = Set<PathModel>;

    closed spec fn view(&self) -> Set<PathModel> {
        path_models(self.roots@).to_set()
    }
}

/// Puts `path` at its place in `out`, unless `out` holds it already.
fn insert_in_order(out: &mut Vec<ProjectPath>, path: ProjectPath)
    requires
        ascending(path_models(old(out)@)),
    ensures
        ascending(path_models(final(out)@)),
        path_models(final(out)@).to_set() == path_models(old(out)@).to_set().insert(path@),
{
    let ghost before = path_models(out@);
    let ghost lt = path_order();
    proof {
        lemma_path_order();
    }
    let mut k: usize = 0;
    let mut placed = false;
    while k < out.len() && !placed
        invariant
            k <= out.len(),
            before == path_models(out@),
            ascending(before),
            forall|j: int| 0 <= j < k ==> (#[trigger] before[j]).precedes(path@),
            placed ==> k < out.len() && path@.precedes(before[k as int]),
            strict_total(path_order()),
        decreases out.len() - k, if placed { 0int } else { 1int },
    {
        match out[k].compare(&path) {
            Order::Less => {
                k += 1;
            },
            Order::Equal => {
                assert(before[k as int] == path@);
                assert(before.contains(path@));
                assert(before.to_set().insert(path@) =~= before.to_set());
                return ;
            },
            Order::Greater => {
                placed = true;
            },
        }
    }
    out.insert(k, path);
    proof {
        let after = path_models(out@);
        assert(after =~= before.insert(k as int, path@));
        assert forall|j: int| k <= j < before.len() implies path@.precedes(#[trigger] before[j]) by {
            if j > k {
                assert(before[k as int].precedes(before[j]));
                assert(lt(path@, before[k as int]) && lt(before[k as int], before[j]));
            }
        }
        assert forall|i: int, j: int| 0 <= i < j < after.len() implies (#[trigger] after[i]).precedes(
            #[trigger] after[j],
        ) by {
            if j < k {
                assert(after[i] == before[i] && after[j] == before[j]);
            } else if j == k {
                assert(after[i] == before[i]);
            } else if i < k {
                assert(after[i] == before[i] && after[j] == before[j - 1]);
                if i == j - 1 {
                } else {
                    assert(before[i].precedes(before[j - 1]));
                }
            } else if i == k {
                assert(after[j] == before[j - 1]);
            } else {
                assert(after[i] == before[i - 1] && after[j] == before[j - 1]);
            }
        }
        assert(after.to_set() =~= before.to_set().insert(path@)) by {
            assert forall|p: PathModel| after.to_set().contains(p) <==> before.to_set().insert(
                path@,
            ).contains(p) by {
                if after.contains(p) {
                    let j = choose|j: int| 0 <= j < after.len() && after[j] == p;
                    if j < k {
                        assert(before[j] == p);
                    } else if j > k {
                        assert(before[j - 1] == p);
                    }
                }
                if before.contains(p) {
                    let j = choose|j: int| 0 <= j < before.len() && before[j] == p;
                    if j < k {
                        assert(after[j] == p);
                    } else {
                        assert(after[j + 1] == p);
                    }
                }
                if p == path@ {
                    assert(after[k as int] == p);
                }
            }
        }
    }
}

impl ProjectSet {
    /// The set without roots.
    pub fn new() -> (set: ProjectSet)
        ensures
            set@ == Set::<PathModel>::empty(),
    {
        let set = ProjectSet { roots: Vec::new() };
        assert(set@ =~= Set::<PathModel>::empty());
        set
    }

    /// Whether `path` is one of the roots.
    pub fn contains(&self, path: &ProjectPath) -> (held: bool)
        ensures
            held == self@.contains(path@),
    {
        let ghost models = path_models(self.roots@);
        let mut i: usize = 0;
        while i < self.roots.len()
            invariant
                i <= self.roots.len(),
                models == path_models(self.roots@),
                forall|j: int| 0 <= j < i ==> (#[trigger] models[j]) != path@,
            decreases self.roots.len() - i,
        {
            if self.roots[i].same_as(path) {
                assert(models[i as int] == path@);
                assert(models.contains(path@));
                return true;
            }
            i += 1;
        }
        assert(!models.contains(path@));
        false
    }

    /// Makes `path` one of the roots, whatever the set holds.
    pub fn insert(&mut self, path: ProjectPath)
        ensures
            final(self)@ == old(self)@.insert(path@),
    {
        let ghost before = path_models(self.roots@);
        if self.contains(&path) {
            assert(self@.insert(path@) =~= self@);
        } else {
            self.roots.push(path);
            proof {
                assert(path_models(self.roots@) =~= before.push(path@));
                before.lemma_push_to_set_commute(path@);
            }
        }
    }

    /// Makes every one of `paths` a root, whatever the set holds.
    pub fn extend(&mut self, paths: &Vec<ProjectPath>)
        ensures
            final(self)@ == old(self)@.union(path_models(paths@).to_set()),
    {
        let ghost models = path_models(paths@);
        let mut i: usize = 0;
        assert(models.take(0).to_set() =~= Set::<PathModel>::empty());
        assert(self@.union(Set::<PathModel>::empty()) =~= self@);
        while i < paths.len()
            invariant
                i <= paths.len(),
                models == path_models(paths@),
                self@ == old(self)@.union(models.take(i as int).to_set()),
            decreases paths.len() - i,
        {
            let ghost held = self@;
            self.insert(paths[i].duplicate());
            proof {
                let done = models.take(i as int);
                assert(models.take(i + 1) =~= done.push(models[i as int]));
                done.lemma_push_to_set_commute(models[i as int]);
                assert(self@ =~= old(self)@.union(models.take(i + 1).to_set()));
            }
            i += 1;
        }
        assert(models.take(i as int) =~= models);
    }

    /// Whether a root of the set keeps `candidate` out.
    pub fn is_blocked(&self, candidate: &ProjectPath) -> (kept_out: bool)
        ensures
            kept_out == blocked(self@, candidate@),
    {
        let ghost models = path_models(self.roots@);
        let parent = candidate.parent();
        let mut i: usize = 0;
        while i < self.roots.len()
            invariant
                i <= self.roots.len(),
                models == path_models(self.roots@),
                parent is Some <==> candidate@.parent() is Some,
                parent matches Some(p) ==> Some(p@) == candidate@.parent(),
                forall|j: int| 0 <= j < i ==> !subsumes(#[trigger] models[j], candidate@),
            decreases self.roots.len() - i,
        {
            let known = &self.roots[i];
            let direct = match &parent {
                Some(p) => p.same_as(known),
                None => false,
            };
            if candidate.same_as(known) || (candidate.starts_with(known) && !direct) {
                assert(subsumes(models[i as int], candidate@));
                assert(models.contains(models[i as int]));
                return true;
            }
            i += 1;
        }
        assert(!blocked(self@, candidate@)) by {
            if blocked(self@, candidate@) {
                let known = choose|known: PathModel|
                    self@.contains(known) && #[trigger] subsumes(known, candidate@);
                assert(models.contains(known));
                let j = choose|j: int| 0 <= j < models.len() && models[j] == known;
                assert(!subsumes(models[j], candidate@));
            }
        }
        false
    }

    /// Offers `candidate` to the set. It becomes a root unless a root of the
    /// set keeps it out; `added` says whether it did.
    pub fn offer(&mut self, candidate: ProjectPath) -> (added: bool)
        ensures
            final(self)@ == offered(old(self)@, candidate@),
            added == !blocked(old(self)@, candidate@),
    {
        if self.is_blocked(&candidate) {
            false
        } else {
            self.insert(candidate);
            true
        }
    }

    /// The roots in order.
    pub fn sorted(&self) -> (out: Vec<ProjectPath>)
        ensures
            path_models(out@) == listing(self@),
            is_listing(listing(self@), self@),
    {
        let ghost models = path_models(self.roots@);
        let mut out: Vec<ProjectPath> = Vec::new();
        let mut i: usize = 0;
        assert(path_models(out@).to_set() =~= models.take(0).to_set());
        while i < self.roots.len()
            invariant
                i <= self.roots.len(),
                models == path_models(self.roots@),
                ascending(path_models(out@)),
                path_models(out@).to_set() == models.take(i as int).to_set(),
            decreases self.roots.len() - i,
        {
            insert_in_order(&mut out, self.roots[i].duplicate());
            proof {
                let done = models.take(i as int);
                assert(models.take(i + 1) =~= done.push(models[i as int]));
                done.lemma_push_to_set_commute(models[i as int]);
            }
            i += 1;
        }
        proof {
            assert(models.take(i as int) =~= models);
            lemma_listing_is(path_models(out@), self@);
        }
        out
    }
}

} // verus!
