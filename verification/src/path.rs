//! Paths as sequences of names, and the relations between them that discovery uses.
//!
//! A path is held the way `std::path::Path::components` takes it apart: the
//! root is a flag, every other component a name. Parent, prefix, equality and
//! order are those of `std::path` on such components.

use vstd::prelude::*;
use vstd::string::StringExecFns;
use crate::order::{
    compare_names, item_order, lemma_item_order, lemma_lex_skip_common, lemma_lex_strict_total,
    lex_lt, names, strict_total, text_eq, Item, Order,
};

verus! {

/// A path: whether it starts at the file-system root, and the names that
/// follow. `.` and `..` are names like any other.
///
/// `/` is the absolute path without names; the empty path is the relative one
/// without names.
#[derive(Debug, Clone, PartialEq, Eq)]
pub struct ProjectPath {
    pub absolute: bool,
    pub components: Vec<String>,
}

/// A `ProjectPath` with its names as character sequences.
pub struct PathModel {
    pub absolute: bool,
    pub parts: Seq<Seq<char>>,
}

impl View for ProjectPath {
    type V = PathModel;

    open spec fn view(&self) -> PathModel {
        PathModel { absolute: self.absolute, parts: names(self.components@) }
    }
}

impl PathModel {
    /// The path without any component: relative and without names.
    pub open spec fn is_empty(self) -> bool {
        !self.absolute && self.parts.len() == 0
    }

    /// The path one level up; `/` and the empty path have none.
    pub open spec fn parent(self) -> Option<PathModel> {
        if self.parts.len() == 0 {
            None
        } else {
            Some(PathModel { absolute: self.absolute, parts: self.parts.drop_last() })
        }
    }

    /// The entry `name` inside this directory.
    pub open spec fn join(self, name: Seq<char>) -> PathModel {
        PathModel { absolute: self.absolute, parts: self.parts.push(name) }
    }

    /// The name of the file or directory that this path leads to: its last
    /// name, unless that is `.` or `..`.
    pub open spec fn file_name(self) -> Option<Seq<char>> {
        if self.parts.len() == 0 || self.parts.last() == "."@ || self.parts.last() == ".."@ {
            None
        } else {
            Some(self.parts.last())
        }
    }

    /// `base` is this path or one of its ancestors. The empty path is an
    /// ancestor of every path.
    pub open spec fn starts_with(self, base: PathModel) -> bool {
        &&& base.parts.is_prefix_of(self.parts)
        &&& (base.absolute == self.absolute || base.is_empty())
    }

    /// The components of this path: the root, if it starts there, and its names.
    pub open spec fn items(self) -> Seq<Item> {
        let named = Seq::new(self.parts.len(), |i: int| Some(self.parts[i]));
        if self.absolute {
            seq![None::<Seq<char>>] + named
        } else {
            named
        }
    }

    /// This path sorts before `other`: component by component, as in a
    /// dictionary. The root comes before `.`, `.` before `..`, `..` before
    /// every other name, and other names go by code point.
    pub open spec fn precedes(self, other: PathModel) -> bool {
        lex_lt(item_order(), self.items(), other.items())
    }
}

/// The order of paths, as a relation.
pub open spec fn path_order() -> spec_fn(PathModel, PathModel) -> bool {
    |p: PathModel, q: PathModel| p.precedes(q)
}

/// Paths with the same components are the same path.
pub proof fn lemma_items_tell_apart(p: PathModel, q: PathModel)
    requires
        p.items() == q.items(),
    ensures
        p == q,
{
    let a = p.items();
    let b = q.items();
    assert(a.len() == p.parts.len() + if p.absolute { 1int } else { 0int });
    assert(b.len() == q.parts.len() + if q.absolute { 1int } else { 0int });
    if p.absolute != q.absolute {
        if p.absolute {
            assert(a[0] is None);
            assert(b[0] is Some);
        } else {
            assert(b[0] is None);
            assert(a[0] is Some);
        }
    }
    let offset: int = if p.absolute {
        1
    } else {
        0
    };
    assert(p.parts.len() == q.parts.len());
    assert forall|i: int| 0 <= i < p.parts.len() implies p.parts[i] == q.parts[i] by {
        assert(a[i + offset] == Some(p.parts[i]));
        assert(b[i + offset] == Some(q.parts[i]));
    }
    assert(p.parts =~= q.parts);
}

/// Paths are strictly and totally ordered by `precedes`.
pub proof fn lemma_path_order()
    ensures
        strict_total(path_order()),
{
    lemma_item_order();
    lemma_lex_strict_total(item_order());
    let items_lt = |a: Seq<Item>, b: Seq<Item>| lex_lt(item_order(), a, b);
    let lt = path_order();
    assert forall|x: PathModel| !#[trigger] lt(x, x) by {
        assert(!items_lt(x.items(), x.items()));
    }
    assert forall|x: PathModel, y: PathModel, z: PathModel| #[trigger]
        lt(x, y) && #[trigger] lt(y, z) implies lt(x, z) by {
        assert(items_lt(x.items(), y.items()) && items_lt(y.items(), z.items()));
        assert(items_lt(x.items(), z.items()));
    }
    assert forall|x: PathModel, y: PathModel| x == y || #[trigger] lt(x, y) || lt(y, x) by {
        assert(x.items() == y.items() || items_lt(x.items(), y.items()) || items_lt(
            y.items(),
            x.items(),
        ));
        if x.items() == y.items() {
            lemma_items_tell_apart(x, y);
        }
    }
}

impl ProjectPath {
    /// The path with these names, from the root if `absolute`.
    pub fn new(absolute: bool, components: Vec<String>) -> (path: ProjectPath)
        ensures
            path.absolute == absolute,
            path.components == components,
    {
        ProjectPath { absolute, components }
    }

    /// A copy of this path.
    pub fn duplicate(&self) -> (copy: ProjectPath)
        ensures
            copy@ == self@,
    {
        let mut components: Vec<String> = Vec::new();
        let mut i: usize = 0;
        while i < self.components.len()
            invariant
                i <= self.components.len(),
                components@.len() == i,
                forall|j: int| 0 <= j < i ==> components@[j]@ == self.components@[j]@,
            decreases self.components.len() - i,
        {
            components.push(self.components[i].clone());
            i += 1;
        }
        assert(names(components@) =~= names(self.components@));
        ProjectPath { absolute: self.absolute, components }
    }

    /// Whether this is the path without any component.
    pub fn is_empty(&self) -> (empty: bool)
        ensures
            empty == self@.is_empty(),
    {
        !self.absolute && self.components.len() == 0
    }

    /// The path one level up; `/` and the empty path have none.
    pub fn parent(&self) -> (up: Option<ProjectPath>)
        ensures
            up is Some <==> self@.parent() is Some,
            up matches Some(p) ==> Some(p@) == self@.parent(),
    {
        let n = self.components.len();
        if n == 0 {
            return None;
        }
        let mut components: Vec<String> = Vec::new();
        let mut i: usize = 0;
        while i < n - 1
            invariant
                n == self.components.len(),
                n > 0,
                i <= n - 1,
                components@.len() == i,
                forall|j: int| 0 <= j < i ==> components@[j]@ == self.components@[j]@,
            decreases n - i,
        {
            components.push(self.components[i].clone());
            i += 1;
        }
        assert(names(components@) =~= names(self.components@).drop_last());
        Some(ProjectPath { absolute: self.absolute, components })
    }

    /// The entry `name` inside this directory.
    pub fn join(&self, name: &str) -> (entry: ProjectPath)
        ensures
            entry@ == self@.join(name@),
    {
        let mut entry = self.duplicate();
        entry.components.push(String::from_str(name));
        assert(names(entry.components@) =~= names(self.components@).push(name@));
        entry
    }

    /// The name of the file or directory that this path leads to: its last
    /// name, unless that is `.` or `..`.
    pub fn file_name(&self) -> (name: Option<&str>)
        ensures
            name is Some <==> self@.file_name() is Some,
            name matches Some(n) ==> Some(n@) == self@.file_name(),
    {
        let n = self.components.len();
        if n == 0 {
            return None;
        }
        let last = self.components[n - 1].as_str();
        if text_eq(last, ".") || text_eq(last, "..") {
            None
        } else {
            Some(last)
        }
    }

    /// How this path stands to `other` in the order of `precedes`.
    pub fn compare(&self, other: &ProjectPath) -> (r: Order)
        ensures
            r is Less <==> self@.precedes(other@),
            r is Equal <==> self@ == other@,
            r is Greater <==> other@.precedes(self@),
    {
        let n = self.components.len();
        let m = other.components.len();
        let ghost a = self@.items();
        let ghost b = other@.items();
        if self.absolute != other.absolute {
            // One path starts at the root. The other is the empty path, which
            // comes first, or starts with a name, which comes after the root.
            let first = if self.absolute {
                m > 0
            } else {
                n == 0
            };
            proof {
                let lt = item_order();
                assert(a.len() == n + if self.absolute { 1int } else { 0int });
                assert(b.len() == m + if other.absolute { 1int } else { 0int });
                if self.absolute {
                    assert(a[0] is None);
                    if m > 0 {
                        assert(b[0] is Some);
                        assert(lt(a[0], b[0]) && !lt(b[0], a[0]));
                    }
                } else {
                    assert(b[0] is None);
                    if n > 0 {
                        assert(a[0] is Some);
                        assert(lt(b[0], a[0]) && !lt(a[0], b[0]));
                    }
                }
                if self@ == other@ {
                    assert(false);
                }
            }
            return if first {
                Order::Less
            } else {
                Order::Greater
            };
        }
        let ghost offset: int = if self.absolute {
            1
        } else {
            0
        };
        let mut i: usize = 0;
        proof {
            lemma_item_order();
            assert(a.take(offset) =~= b.take(offset));
        }
        while i < n && i < m
            invariant
                n == self.components.len(),
                m == other.components.len(),
                a == self@.items(),
                b == other@.items(),
                offset == if self.absolute { 1int } else { 0int },
                i <= n,
                i <= m,
                a.take(i + offset) == b.take(i + offset),
                self.absolute == other.absolute,
                strict_total(item_order()),
            decreases n - i,
        {
            let step = compare_names(self.components[i].as_str(), other.components[i].as_str());
            proof {
                assert(a[i + offset] == Some(self.components@[i as int]@));
                assert(b[i + offset] == Some(other.components@[i as int]@));
            }
            match step {
                Order::Equal => {},
                _ => {
                    proof {
                        lemma_lex_skip_common(item_order(), a, b, i + offset);
                        lemma_lex_skip_common(item_order(), b, a, i + offset);
                        let lt = item_order();
                        let x = a[i + offset];
                        let y = b[i + offset];
                        assert(a.skip(i + offset)[0] == x);
                        assert(b.skip(i + offset)[0] == y);
                        assert(lt(x, y) || lt(y, x));
                        assert(!(lt(x, y) && lt(y, x))) by {
                            if lt(x, y) && lt(y, x) {
                                assert(lt(x, x));
                            }
                        }
                    }
                    return step;
                },
            }
            proof {
                assert(a.take(i + offset + 1) =~= a.take(i + offset).push(a[i + offset]));
                assert(b.take(i + offset + 1) =~= b.take(i + offset).push(b[i + offset]));
            }
            i += 1;
        }
        proof {
            lemma_lex_skip_common(item_order(), a, b, i + offset);
            lemma_lex_skip_common(item_order(), b, a, i + offset);
            if n == m {
                assert(a.take(i + offset) =~= a);
                assert(b.take(i + offset) =~= b);
                lemma_items_tell_apart(self@, other@);
            } else {
                assert(a.len() != b.len());
            }
        }
        if n < m {
            Order::Less
        } else if m < n {
            Order::Greater
        } else {
            Order::Equal
        }
    }

    /// Whether both paths have the same names from the same start.
    pub fn same_as(&self, other: &ProjectPath) -> (same: bool)
        ensures
            same == (self@ == other@),
    {
        let n = self.components.len();
        if self.absolute != other.absolute || n != other.components.len() {
            assert(self@.parts.len() == n && other@.parts.len() == other.components.len());
            return false;
        }
        let ghost a = names(self.components@);
        let ghost b = names(other.components@);
        let mut i: usize = 0;
        while i < n
            invariant
                n == self.components.len(),
                n == other.components.len(),
                a == names(self.components@),
                b == names(other.components@),
                i <= n,
                forall|j: int| 0 <= j < i ==> a[j] == b[j],
            decreases n - i,
        {
            if self.components[i] != other.components[i] {
                assert(a[i as int] != b[i as int]);
                return false;
            }
            i += 1;
        }
        assert(a =~= b);
        true
    }

    /// Whether `base` is this path or one of its ancestors.
    pub fn starts_with(&self, base: &ProjectPath) -> (within: bool)
        ensures
            within == self@.starts_with(base@),
    {
        if base.absolute != self.absolute && !base.is_empty() {
            return false;
        }
        let n = base.components.len();
        if n > self.components.len() {
            return false;
        }
        let ghost a = names(self.components@);
        let ghost b = names(base.components@);
        let mut i: usize = 0;
        while i < n
            invariant
                n == base.components.len(),
                n <= self.components.len(),
                a == names(self.components@),
                b == names(base.components@),
                i <= n,
                a.take(i as int) == b.take(i as int),
            decreases n - i,
        {
            if self.components[i] != base.components[i] {
                assert(a[i as int] != b[i as int]);
                assert(a.take(n as int)[i as int] != b[i as int]);
                return false;
            }
            proof {
                assert(a.take(i + 1) =~= a.take(i as int).push(a[i as int]));
                assert(b.take(i + 1) =~= b.take(i as int).push(b[i as int]));
            }
            i += 1;
        }
        assert(b.take(n as int) =~= b);
        true
    }
}

} // verus!
