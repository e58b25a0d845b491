//! The specificity order on templates of one length is a strict order, and
//! two templates that neither way outrank each other have their literals in
//! the same places.

use vstd::prelude::*;
use crate::template::{leads, lemma_leads_first, literal_count, outranks, same_kinds, SegmentView};

verus! {

/// Templates with their literals in the same places have as many.
pub proof fn lemma_literal_count_by_kinds(a: Seq<SegmentView>, b: Seq<SegmentView>)
    requires
        a.len() == b.len(),
        same_kinds(a, b, a.len() as int),
    ensures
        literal_count(a) == literal_count(b),
    decreases a.len(),
{
    if a.len() > 0 {
        let x = a.drop_last();
        let y = b.drop_last();
        assert forall|j: int| 0 <= j < x.len() implies (#[trigger] x[j]).is_literal()
            == y[j].is_literal() by {
            assert(a[j].is_literal() == b[j].is_literal());
        }
        lemma_literal_count_by_kinds(x, y);
        assert(a[a.len() - 1].is_literal() == b[a.len() - 1].is_literal());
    }
}

/// Templates of one length that differ in kind somewhere before `n` have a
/// first such place, and one of them leads there.
pub proof fn lemma_first_difference(a: Seq<SegmentView>, b: Seq<SegmentView>, n: int)
    requires
        0 <= n <= a.len(),
        n <= b.len(),
        !same_kinds(a, b, n),
    ensures
        leads(a, b) || leads(b, a),
    decreases n,
{
    if n > 0 {
        if same_kinds(a, b, n - 1) {
            assert(a[n - 1].is_literal() != b[n - 1].is_literal());
            if a[n - 1].is_literal() {
                lemma_leads_first(a, b, n - 1);
            } else {
                assert forall|j: int| 0 <= j < n - 1 implies (#[trigger] b[j]).is_literal()
                    == a[j].is_literal() by {
                    assert(a[j].is_literal() == b[j].is_literal());
                }
                lemma_leads_first(b, a, n - 1);
            }
        } else {
            lemma_first_difference(a, b, n - 1);
        }
    }
}

/// No template outranks one that outranks it.
pub proof fn lemma_outranks_asymmetric(a: Seq<SegmentView>, b: Seq<SegmentView>)
    requires
        outranks(a, b),
    ensures
        !outranks(b, a),
{
    if literal_count(a) == literal_count(b) {
        let i = choose|i: int|
            0 <= i < a.len() && i < b.len() && (#[trigger] a[i]).is_literal() && !b[i].is_literal()
                && same_kinds(a, b, i);
        lemma_leads_first(a, b, i);
    }
}

/// The order is transitive.
pub proof fn lemma_outranks_transitive(
    a: Seq<SegmentView>,
    b: Seq<SegmentView>,
    c: Seq<SegmentView>,
)
    requires
        outranks(a, b),
        outranks(b, c),
    ensures
        outranks(a, c),
{
    if literal_count(a) == literal_count(b) && literal_count(b) == literal_count(c) {
        let i = choose|i: int|
            0 <= i < a.len() && i < b.len() && (#[trigger] a[i]).is_literal() && !b[i].is_literal()
                && same_kinds(a, b, i);
        let j = choose|j: int|
            0 <= j < b.len() && j < c.len() && (#[trigger] b[j]).is_literal() && !c[j].is_literal()
                && same_kinds(b, c, j);
        if i < j {
            assert(b[i].is_literal() == c[i].is_literal());
            assert forall|k: int| 0 <= k < i implies (#[trigger] a[k]).is_literal()
                == c[k].is_literal() by {
                assert(a[k].is_literal() == b[k].is_literal());
                assert(b[k].is_literal() == c[k].is_literal());
            }
            assert(a[i].is_literal() && !c[i].is_literal() && same_kinds(a, c, i));
        } else if j < i {
            assert(a[j].is_literal() == b[j].is_literal());
            assert forall|k: int| 0 <= k < j implies (#[trigger] a[k]).is_literal()
                == c[k].is_literal() by {
                assert(a[k].is_literal() == b[k].is_literal());
                assert(b[k].is_literal() == c[k].is_literal());
            }
            assert(a[j].is_literal() && !c[j].is_literal() && same_kinds(a, c, j));
        }
    }
}

/// Two templates of one length, neither of which outranks the other, have
/// their literals in the same places.
pub proof fn lemma_level_same_kinds(a: Seq<SegmentView>, b: Seq<SegmentView>)
    requires
        a.len() == b.len(),
        !outranks(a, b),
        !outranks(b, a),
    ensures
        same_kinds(a, b, a.len() as int),
{
    if !same_kinds(a, b, a.len() as int) {
        lemma_first_difference(a, b, a.len() as int);
    }
}

/// What outranks a template outranks every template of the same length with
/// its literals in the same places.
pub proof fn lemma_outranks_by_kinds(a: Seq<SegmentView>, b: Seq<SegmentView>, c: Seq<SegmentView>)
    requires
        b.len() == c.len(),
        same_kinds(b, c, b.len() as int),
        outranks(a, b),
    ensures
        outranks(a, c),
{
    lemma_literal_count_by_kinds(b, c);
    if literal_count(a) == literal_count(b) {
        let i = choose|i: int|
            0 <= i < a.len() && i < b.len() && (#[trigger] a[i]).is_literal() && !b[i].is_literal()
                && same_kinds(a, b, i);
        assert(b[i].is_literal() == c[i].is_literal());
        assert forall|k: int| 0 <= k < i implies (#[trigger] a[k]).is_literal()
            == c[k].is_literal() by {
            assert(a[k].is_literal() == b[k].is_literal());
            assert(b[k].is_literal() == c[k].is_literal());
        }
        assert(a[i].is_literal() && !c[i].is_literal() && same_kinds(a, c, i));
    }
}

} // verus!
