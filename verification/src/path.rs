//! Paths below the archive root, the order they sort by, and sorting.

use crate::text::{
    lemma_text_le_antisymmetric, lemma_text_le_total, lemma_text_le_transitive,
    precedence_of_text, text_le, Precedence,
};
use vstd::prelude::*;

verus! {

/// A path below the archive root, one name per level, outermost first. The
/// root itself has no component.
#[derive(Debug, PartialEq, Eq)]
pub struct NotePath {
    pub components: Vec<String>,
}

impl View for NotePath {
    type V = Seq<Seq<char>>;

    open spec fn view(&self) -> Seq<Seq<char>> {
        self.components.deep_view()
    }
}

impl DeepView for NotePath {
    type V = Seq<Seq<char>>;

    open spec fn deep_view(&self) -> Seq<Seq<char>> {
        self.components.deep_view()
    }
}

/// The paths that `paths` stand for, in the same order.
pub open spec fn path_views(paths: Seq<NotePath>) -> Seq<Seq<Seq<char>>> {
    paths.map_values(|p: NotePath| p@)
}

/// Order of paths, level by level: the first level at which `a` and `b` bear
/// different names decides, by the order of those names, and a path comes
/// before everything below it.
pub open spec fn path_le(a: Seq<Seq<char>>, b: Seq<Seq<char>>) -> bool
    decreases a.len(),
{
    if a.len() == 0 {
        true
    } else if b.len() == 0 {
        false
    } else if a[0] == b[0] {
        path_le(a.drop_first(), b.drop_first())
    } else {
        text_le(a[0], b[0])
    }
}

/// Where `a` stands to `b` in the order `path_le`.
pub open spec fn path_precedence(a: Seq<Seq<char>>, b: Seq<Seq<char>>) -> Precedence {
    if a == b {
        Precedence::Same
    } else if path_le(a, b) {
        Precedence::Before
    } else {
        Precedence::After
    }
}

/// Each path is in order with every path after it.
pub open spec fn is_sorted(paths: Seq<Seq<Seq<char>>>) -> bool {
    forall|i: int, j: int| 0 <= i <= j < paths.len() ==> path_le(paths[i], paths[j])
}

/// Each path comes before every path after it, and none stands twice.
pub open spec fn is_strictly_sorted(paths: Seq<Seq<Seq<char>>>) -> bool {
    forall|i: int, j: int|
        0 <= i < j < paths.len() ==> path_le(paths[i], paths[j]) && paths[i] != paths[j]
}

/// Every path is in order with itself.
pub proof fn lemma_path_le_reflexive(a: Seq<Seq<char>>)
    ensures
        path_le(a, a),
    decreases a.len(),
{
    if a.len() > 0 {
        lemma_path_le_reflexive(a.drop_first());
    }
}

/// Two paths that are in order both ways are the same path.
pub proof fn lemma_path_le_antisymmetric(a: Seq<Seq<char>>, b: Seq<Seq<char>>)
    requires
        path_le(a, b),
        path_le(b, a),
    ensures
        a == b,
    decreases a.len(),
{
    if a.len() > 0 && b.len() > 0 {
        if a[0] != b[0] {
            lemma_text_le_antisymmetric(a[0], b[0]);
        }
        lemma_path_le_antisymmetric(a.drop_first(), b.drop_first());
        assert(a =~= seq![a[0]] + a.drop_first());
    }
}

/// The order passes along a chain of three paths.
pub proof fn lemma_path_le_transitive(a: Seq<Seq<char>>, b: Seq<Seq<char>>, c: Seq<Seq<char>>)
    requires
        path_le(a, b),
        path_le(b, c),
    ensures
        path_le(a, c),
    decreases a.len(),
{
    if a.len() > 0 {
        if a[0] == b[0] && b[0] == c[0] {
            lemma_path_le_transitive(a.drop_first(), b.drop_first(), c.drop_first());
        } else if a[0] != b[0] && b[0] != c[0] {
            lemma_text_le_transitive(a[0], b[0], c[0]);
            if a[0] == c[0] {
                lemma_text_le_antisymmetric(a[0], b[0]);
            }
        }
    }
}

/// Any two paths are in order one way or the other.
pub proof fn lemma_path_le_total(a: Seq<Seq<char>>, b: Seq<Seq<char>>)
    ensures
        path_le(a, b) || path_le(b, a),
    decreases a.len(),
{
    if a.len() > 0 && b.len() > 0 {
        if a[0] == b[0] {
            lemma_path_le_total(a.drop_first(), b.drop_first());
        } else {
            lemma_text_le_total(a[0], b[0]);
        }
    }
}

/// Levels that two paths share at the top do not bear on their order.
pub proof fn lemma_path_le_below_shared(a: Seq<Seq<char>>, b: Seq<Seq<char>>, k: int)
    requires
        0 <= k <= a.len(),
        k <= b.len(),
        a.take(k) == b.take(k),
    ensures
        path_le(a, b) == path_le(a.skip(k), b.skip(k)),
    decreases k,
{
    if k == 0 {
        assert(a.skip(0) =~= a);
        assert(b.skip(0) =~= b);
    } else {
        assert(a[0] == a.take(k)[0]);
        assert(a.drop_first().take(k - 1) =~= a.take(k).drop_first());
        assert(b.drop_first().take(k - 1) =~= b.take(k).drop_first());
        lemma_path_le_below_shared(a.drop_first(), b.drop_first(), k - 1);
        assert(a.drop_first().skip(k - 1) =~= a.skip(k));
        assert(b.drop_first().skip(k - 1) =~= b.skip(k));
    }
}

/// The last path of a sorted sequence is one that no other comes after.
pub proof fn lemma_last_of_sorted_is_greatest(paths: Seq<Seq<Seq<char>>>)
    requires
        is_sorted(paths),
        paths.len() > 0,
    ensures
        forall|i: int| 0 <= i < paths.len() ==> path_le(#[trigger] paths[i], paths.last()),
{
}

/// Sorted paths are in the one order that their being sorted leaves them:
/// two sorted sequences of the same paths, each as often in the one as in
/// the other, are the same sequence.
pub proof fn lemma_sorted_is_unique(a: Seq<Seq<Seq<char>>>, b: Seq<Seq<Seq<char>>>)
    requires
        is_sorted(a),
        is_sorted(b),
        a.to_multiset() == b.to_multiset(),
    ensures
        a == b,
    decreases a.len(),
{
    vstd::seq_lib::to_multiset_len(a);
    vstd::seq_lib::to_multiset_len(b);
    if a.len() > 0 {
        let last_a = a.last();
        let last_b = b.last();
        assert(path_le(last_a, last_b)) by {
            vstd::seq_lib::to_multiset_contains(a, last_a);
            vstd::seq_lib::to_multiset_contains(b, last_a);
        }
        assert(path_le(last_b, last_a)) by {
            vstd::seq_lib::to_multiset_contains(b, last_b);
            vstd::seq_lib::to_multiset_contains(a, last_b);
        }
        lemma_path_le_antisymmetric(last_a, last_b);
        vstd::seq_lib::to_multiset_remove(a, a.len() - 1);
        vstd::seq_lib::to_multiset_remove(b, b.len() - 1);
        lemma_sorted_is_unique(a.drop_last(), b.drop_last());
        assert(a =~= a.drop_last().push(last_a));
    }
}

impl NotePath {
    /// The archive root.
    pub fn root() -> (r: NotePath)
        ensures
            r@ == Seq::<Seq<char>>::empty(),
    {
        NotePath { components: Vec::new() }
    }

    /// A copy of this path.
    pub fn duplicate(&self) -> (r: NotePath)
        ensures
            r@ == self@,
    {
        NotePath { components: self.components.clone() }
    }

    /// The path of the entry called `name` in the directory at this path.
    pub fn child(&self, name: &str) -> (r: NotePath)
        ensures
            r@ == self@.push(name@),
    {
        let mut components = self.components.clone();
        components.push(name.to_owned());
        NotePath { components }
    }

    /// Where this path stands to `other` in the order `path_le`.
    pub fn precedence(&self, other: &NotePath) -> (r: Precedence)
        ensures
            r == path_precedence(self@, other@),
    {
        let mut k: usize = 0;
        while k < self.components.len() && k < other.components.len()
            invariant
                k <= self.components.len(),
                k <= other.components.len(),
                self@.take(k as int) == other@.take(k as int),
            decreases self.components.len() - k,
        {
            proof {
                lemma_path_le_below_shared(self@, other@, k as int);
            }
            let mine = self.components[k].as_str();
            let theirs = other.components[k].as_str();
            match precedence_of_text(mine, theirs) {
                Precedence::Before => {
                    return Precedence::Before;
                },
                Precedence::After => {
                    return Precedence::After;
                },
                Precedence::Same => {
                    k = k + 1;
                },
            }
        }
        proof {
            lemma_path_le_below_shared(self@, other@, k as int);
        }
        if k < other.components.len() {
            Precedence::Before
        } else if k < self.components.len() {
            Precedence::After
        } else {
            assert(self@ =~= self@.take(k as int));
            assert(other@ =~= other@.take(k as int));
            Precedence::Same
        }
    }
}

/// The place at which `path` goes into `sorted` so that the whole stays
/// sorted: behind everything that is in order with it.
fn insertion_index(sorted: &Vec<NotePath>, path: &NotePath) -> (at: usize)
    requires
        is_sorted(path_views(sorted@)),
    ensures
        at <= sorted.len(),
        forall|i: int| 0 <= i < at ==> path_le(#[trigger] sorted[i]@, path@),
        forall|i: int| at <= i < sorted.len() ==> path_le(path@, #[trigger] sorted[i]@),
{
    let mut low: usize = 0;
    let mut high: usize = sorted.len();
    while low < high
        invariant
            low <= high <= sorted.len(),
            is_sorted(path_views(sorted@)),
            forall|i: int| 0 <= i < low ==> path_le(#[trigger] sorted[i]@, path@),
            forall|i: int| high <= i < sorted.len() ==> path_le(path@, #[trigger] sorted[i]@),
        decreases high - low,
    {
        let middle = low + (high - low) / 2;
        let ghost views = path_views(sorted@);
        match sorted[middle].precedence(path) {
            Precedence::After => {
                assert forall|i: int| middle <= i < sorted.len() implies path_le(
                    path@,
                    #[trigger] sorted[i]@,
                ) by {
                    lemma_path_le_total(sorted[middle as int]@, path@);
                    assert(path_le(views[middle as int], views[i]));
                    lemma_path_le_transitive(path@, sorted[middle as int]@, sorted[i]@);
                }
                high = middle;
            },
            _ => {
                assert forall|i: int| 0 <= i < middle + 1 implies path_le(
                    #[trigger] sorted[i]@,
                    path@,
                ) by {
                    assert(path_le(views[i], views[middle as int]));
                    lemma_path_le_transitive(sorted[i]@, sorted[middle as int]@, path@);
                }
                low = middle + 1;
            },
        }
    }
    low
}

/// The same paths in ascending order.
pub fn sort_paths(paths: Vec<NotePath>) -> (sorted: Vec<NotePath>)
    ensures
        is_sorted(path_views(sorted@)),
        path_views(sorted@).to_multiset() == path_views(paths@).to_multiset(),
{
    let mut rest = paths;
    let mut sorted: Vec<NotePath> = Vec::new();
    while rest.len() > 0
        invariant
            is_sorted(path_views(sorted@)),
            (path_views(sorted@) + path_views(rest@)).to_multiset() == path_views(
                paths@,
            ).to_multiset(),
        decreases rest.len(),
    {
        let ghost rest_before = path_views(rest@);
        let ghost sorted_before = path_views(sorted@);
        let path = rest.pop().unwrap();
        let at = insertion_index(&sorted, &path);
        sorted.insert(at, path);
        proof {
            let rest_after = path_views(rest@);
            let sorted_after = path_views(sorted@);
            assert(rest_before =~= rest_after.push(path@));
            assert(sorted_after =~= sorted_before.insert(at as int, path@));
            assert((sorted_after + rest_after).to_multiset() =~= (sorted_before
                + rest_before).to_multiset()) by {
                broadcast use vstd::multiset::group_multiset_axioms;

                vstd::seq_lib::to_multiset_build(rest_after, path@);
                vstd::seq_lib::to_multiset_insert(sorted_before, at as int, path@);
                vstd::seq_lib::lemma_multiset_commutative(sorted_after, rest_after);
                vstd::seq_lib::lemma_multiset_commutative(sorted_before, rest_before);
            }
            assert forall|i: int, j: int| 0 <= i <= j < sorted_after.len() implies path_le(
                sorted_after[i],
                sorted_after[j],
            ) by {
                lemma_path_le_reflexive(path@);
            }
        }
    }
    sorted
}

} // verus!
