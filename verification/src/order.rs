//! Lexicographic order on sequences, and on texts by code point.

use vstd::prelude::*;
use vstd::string::{StrSliceExecFns, StringSliceAdditionalSpecFns};
use vstd::utf8::encode_utf8_decode_utf8;

verus! {

/// The texts of a run of strings.
pub open spec fn names(strings: Seq<String>) -> Seq<Seq<char>> {
    Seq::new(strings.len(), |i: int| strings[i]@)
}

/// How one value stands to another in a strict total order.
#[derive(Debug, Clone, Copy, PartialEq, Eq, Structural)]
pub enum Order {
    Less,
    Equal,
    Greater,
}

/// `lt` is irreflexive, transitive and total.
pub open spec fn strict_total<T>(lt: spec_fn(T, T) -> bool) -> bool {
    &&& forall|x: T| !#[trigger] lt(x, x)
    &&& forall|x: T, y: T, z: T| #[trigger] lt(x, y) && #[trigger] lt(y, z) ==> lt(x, z)
    &&& forall|x: T, y: T| x == y || #[trigger] lt(x, y) || lt(y, x)
}

/// `a` comes before `b` in the dictionary order that `lt` induces: at the first
/// index where they differ `a` holds the smaller item, or `a` is a proper
/// prefix of `b`.
pub open spec fn lex_lt<T>(lt: spec_fn(T, T) -> bool, a: Seq<T>, b: Seq<T>) -> bool
    decreases a.len(),
{
    if b.len() == 0 {
        false
    } else if a.len() == 0 {
        true
    } else if a[0] == b[0] {
        lex_lt(lt, a.drop_first(), b.drop_first())
    } else {
        lt(a[0], b[0])
    }
}

/// Sequences that agree on their first `k` items compare as their remainders do.
pub proof fn lemma_lex_skip_common<T>(lt: spec_fn(T, T) -> bool, a: Seq<T>, b: Seq<T>, k: int)
    requires
        0 <= k <= a.len(),
        k <= b.len(),
        a.take(k) == b.take(k),
    ensures
        lex_lt(lt, a, b) == lex_lt(lt, a.skip(k), b.skip(k)),
    decreases k,
{
    if k == 0 {
        assert(a.skip(0) =~= a);
        assert(b.skip(0) =~= b);
    } else {
        assert(a[0] == a.take(k)[0]);
        assert(b[0] == b.take(k)[0]);
        assert(a.drop_first().take(k - 1) =~= a.take(k).drop_first());
        assert(b.drop_first().take(k - 1) =~= b.take(k).drop_first());
        lemma_lex_skip_common(lt, a.drop_first(), b.drop_first(), k - 1);
        assert(a.drop_first().skip(k - 1) =~= a.skip(k));
        assert(b.drop_first().skip(k - 1) =~= b.skip(k));
    }
}

/// No sequence comes before itself.
pub proof fn lemma_lex_irreflexive<T>(lt: spec_fn(T, T) -> bool, a: Seq<T>)
    requires
        strict_total(lt),
    ensures
        !lex_lt(lt, a, a),
    decreases a.len(),
{
    if a.len() > 0 {
        lemma_lex_irreflexive(lt, a.drop_first());
    }
}

/// The dictionary order is transitive.
pub proof fn lemma_lex_transitive<T>(lt: spec_fn(T, T) -> bool, a: Seq<T>, b: Seq<T>, c: Seq<T>)
    requires
        strict_total(lt),
        lex_lt(lt, a, b),
        lex_lt(lt, b, c),
    ensures
        lex_lt(lt, a, c),
    decreases a.len(),
{
    if a.len() > 0 {
        if a[0] == b[0] && b[0] == c[0] {
            lemma_lex_transitive(lt, a.drop_first(), b.drop_first(), c.drop_first());
        } else if a[0] == b[0] {
            assert(lt(b[0], c[0]));
        } else if b[0] == c[0] {
            assert(lt(a[0], b[0]));
        } else {
            assert(lt(a[0], b[0]) && lt(b[0], c[0]));
            assert(a[0] != c[0]);
        }
    }
}

/// Of two different sequences one comes before the other.
pub proof fn lemma_lex_total<T>(lt: spec_fn(T, T) -> bool, a: Seq<T>, b: Seq<T>)
    requires
        strict_total(lt),
    ensures
        a == b || lex_lt(lt, a, b) || lex_lt(lt, b, a),
    decreases a.len(),
{
    if a.len() == 0 || b.len() == 0 {
        assert(a.len() == 0 && b.len() == 0 ==> a =~= b);
    } else if a[0] == b[0] {
        lemma_lex_total(lt, a.drop_first(), b.drop_first());
        if a.drop_first() == b.drop_first() {
            assert(a =~= seq![a[0]] + a.drop_first());
            assert(b =~= seq![b[0]] + b.drop_first());
        }
    } else {
        assert(lt(a[0], b[0]) || lt(b[0], a[0]));
    }
}

/// The dictionary order of a strict total order is a strict total order.
pub proof fn lemma_lex_strict_total<T>(lt: spec_fn(T, T) -> bool)
    requires
        strict_total(lt),
    ensures
        strict_total(|a: Seq<T>, b: Seq<T>| lex_lt(lt, a, b)),
{
    let lifted = |a: Seq<T>, b: Seq<T>| lex_lt(lt, a, b);
    assert forall|x: Seq<T>| !#[trigger] lifted(x, x) by {
        lemma_lex_irreflexive(lt, x);
    }
    assert forall|x: Seq<T>, y: Seq<T>, z: Seq<T>| #[trigger] lifted(x, y) && #[trigger] lifted(
        y,
        z,
    ) implies lifted(x, z) by {
        lemma_lex_transitive(lt, x, y, z);
    }
    assert forall|x: Seq<T>, y: Seq<T>| x == y || #[trigger] lifted(x, y) || lifted(y, x) by {
        lemma_lex_total(lt, x, y);
    }
}

/// The order of characters by code point.
pub open spec fn char_lt() -> spec_fn(char, char) -> bool {
    |x: char, y: char| (x as int) < (y as int)
}

/// `a` comes before `b` when both are read as sequences of code points.
pub open spec fn text_lt(a: Seq<char>, b: Seq<char>) -> bool {
    lex_lt(char_lt(), a, b)
}

/// The order of texts, as a relation.
pub open spec fn text_order() -> spec_fn(Seq<char>, Seq<char>) -> bool {
    |a: Seq<char>, b: Seq<char>| text_lt(a, b)
}

/// Characters with the same code point are the same character.
proof fn lemma_char_by_code(x: char, y: char)
    ensures
        (x as int) == (y as int) ==> x == y,
{
}

/// Characters are strictly and totally ordered by code point.
pub proof fn lemma_char_order()
    ensures
        strict_total(char_lt()),
{
    let lt = char_lt();
    assert forall|x: char, y: char| x == y || #[trigger] lt(x, y) || lt(y, x) by {
        lemma_char_by_code(x, y);
    }
}

/// Texts are strictly and totally ordered.
pub proof fn lemma_text_order()
    ensures
        strict_total(text_order()),
{
    lemma_char_order();
    lemma_lex_strict_total(char_lt());
    assert(text_order() == (|a: Seq<char>, b: Seq<char>| lex_lt(char_lt(), a, b)));
}

/// A component of a path as the order of paths sees it: the root, or a name.
pub type Item = Option<Seq<char>>;

/// Where a component stands among the kinds of components: the root first,
/// then `.`, then `..`, then every other name.
pub open spec fn item_rank(item: Item) -> int {
    match item {
        None => 0,
        Some(name) => if name == "."@ {
            1
        } else if name == ".."@ {
            2
        } else {
            3
        },
    }
}

/// One component comes before another: by kind, and names by code point.
pub open spec fn item_lt(a: Item, b: Item) -> bool {
    item_rank(a) < item_rank(b) || (item_rank(a) == item_rank(b) && a is Some && b is Some
        && text_lt(a->0, b->0))
}

/// The order of components, as a relation.
pub open spec fn item_order() -> spec_fn(Item, Item) -> bool {
    |a: Item, b: Item| item_lt(a, b)
}

/// Components are strictly and totally ordered.
pub proof fn lemma_item_order()
    ensures
        strict_total(item_order()),
{
    lemma_text_order();
    let text = text_order();
    let lt = item_order();
    assert forall|x: Item| !#[trigger] lt(x, x) by {
        if x is Some {
            assert(!text(x->0, x->0));
        }
    }
    assert forall|x: Item, y: Item, z: Item| #[trigger] lt(x, y) && #[trigger] lt(y, z) implies lt(
        x,
        z,
    ) by {
        if item_rank(x) == item_rank(y) && item_rank(y) == item_rank(z) {
            assert(text(x->0, y->0) && text(y->0, z->0));
            assert(text(x->0, z->0));
        }
    }
    assert forall|x: Item, y: Item| x == y || #[trigger] lt(x, y) || lt(y, x) by {
        if item_rank(x) == item_rank(y) && x != y {
            assert(x->0 == y->0 || text(x->0, y->0) || text(y->0, x->0));
        }
    }
}

/// Whether two texts hold the same characters.
pub fn text_eq(a: &str, b: &str) -> (same: bool)
    ensures
        same == (a@ == b@),
{
    let x = a.as_bytes();
    let y = b.as_bytes();
    proof {
        encode_utf8_decode_utf8(a@);
        encode_utf8_decode_utf8(b@);
    }
    if x.len() != y.len() {
        return false;
    }
    let mut i: usize = 0;
    while i < x.len()
        invariant
            x@ == a.spec_bytes(),
            y@ == b.spec_bytes(),
            x@.len() == y@.len(),
            i <= x@.len(),
            forall|j: int| 0 <= j < i ==> x@[j] == y@[j],
        decreases x.len() - i,
    {
        if x[i] != y[i] {
            return false;
        }
        i += 1;
    }
    assert(x@ =~= y@);
    true
}

/// Compares two texts by code point.
pub fn compare_text(a: &str, b: &str) -> (r: Order)
    ensures
        r is Less <==> text_lt(a@, b@),
        r is Equal <==> a@ == b@,
        r is Greater <==> text_lt(b@, a@),
{
    let n = a.unicode_len();
    let m = b.unicode_len();
    let mut i: usize = 0;
    proof {
        lemma_char_order();
    }
    while i < n && i < m
        invariant
            n == a@.len(),
            m == b@.len(),
            i <= n,
            i <= m,
            a@.take(i as int) == b@.take(i as int),
            strict_total(char_lt()),
        decreases n - i,
    {
        let x = a.get_char(i);
        let y = b.get_char(i);
        if x != y {
            proof {
                lemma_lex_skip_common(char_lt(), a@, b@, i as int);
                lemma_lex_skip_common(char_lt(), b@, a@, i as int);
                assert(a@.skip(i as int)[0] == x);
                assert(b@.skip(i as int)[0] == y);
                assert(a@[i as int] != b@[i as int]);
                let lt = char_lt();
                assert(lt(x, y) || lt(y, x));
                assert(!(lt(x, y) && lt(y, x))) by {
                    if lt(x, y) && lt(y, x) {
                        assert(lt(x, x));
                    }
                }
            }
            return if (x as u32) < (y as u32) {
                Order::Less
            } else {
                Order::Greater
            };
        }
        proof {
            assert(a@.take(i + 1) =~= a@.take(i as int).push(x));
            assert(b@.take(i + 1) =~= b@.take(i as int).push(y));
        }
        i += 1;
    }
    proof {
        lemma_lex_skip_common(char_lt(), a@, b@, i as int);
        lemma_lex_skip_common(char_lt(), b@, a@, i as int);
        if n == m {
            assert(a@.take(i as int) =~= a@);
            assert(b@.take(i as int) =~= b@);
        }
    }
    if n < m {
        Order::Less
    } else if m < n {
        Order::Greater
    } else {
        Order::Equal
    }
}

/// Compares two names as components of paths: `.` before `..`, `..` before
/// every other name, other names by code point.
pub fn compare_names(a: &str, b: &str) -> (r: Order)
    ensures
        r is Less <==> item_lt(Some(a@), Some(b@)),
        r is Equal <==> a@ == b@,
        r is Greater <==> item_lt(Some(b@), Some(a@)),
{
    let rank_a: u8 = if text_eq(a, ".") {
        1
    } else if text_eq(a, "..") {
        2
    } else {
        3
    };
    let rank_b: u8 = if text_eq(b, ".") {
        1
    } else if text_eq(b, "..") {
        2
    } else {
        3
    };
    proof {
        lemma_text_order();
        let text = text_order();
        assert(!text(a@, a@));
        assert(!(text(a@, b@) && text(b@, a@))) by {
            if text(a@, b@) && text(b@, a@) {
                assert(text(a@, a@));
            }
        }
    }
    if rank_a < rank_b {
        Order::Less
    } else if rank_b < rank_a {
        Order::Greater
    } else {
        compare_text(a, b)
    }
}

} // verus!
