//! The order in which diagnostics are presented: by the start of the
//! primary span, and among diagnostics that start at the same offset, in
//! the order in which they were reported.

use vstd::prelude::*;
use vstd::seq_lib::lemma_multiset_commutative;
use crate::diagnostic::{Diagnostic, DiagnosticView};

verus! {

/// `s` with `d` put in front of the first diagnostic that does not start
/// before `d`.
pub open spec fn insert_before(s: Seq<DiagnosticView>, d: DiagnosticView) -> Seq<DiagnosticView>
    decreases s.len(),
{
    if s.len() == 0 {
        seq![d]
    } else if d.primary_start() <= s.first().primary_start() {
        seq![d] + s
    } else {
        seq![s.first()] + insert_before(s.drop_first(), d)
    }
}

/// The diagnostics `s` in the order of presentation.
pub open spec fn presentation_order(s: Seq<DiagnosticView>) -> Seq<DiagnosticView>
    decreases s.len(),
{
    if s.len() == 0 {
        Seq::empty()
    } else {
        insert_before(presentation_order(s.drop_first()), s.first())
    }
}

/// The diagnostics start at rising offsets.
pub open spec fn is_ordered(s: Seq<DiagnosticView>) -> bool {
    forall|i: int, j: int|
        0 <= i <= j < s.len() ==> (#[trigger] s[i]).primary_start() <= (
        #[trigger] s[j]).primary_start()
}

/// The index at which `insert_before` puts `d`: that of the first
/// diagnostic of `s` that does not start before `d`.
pub open spec fn insertion_point(s: Seq<DiagnosticView>, d: DiagnosticView) -> int
    decreases s.len(),
{
    if s.len() == 0 || d.primary_start() <= s.first().primary_start() {
        0
    } else {
        1 + insertion_point(s.drop_first(), d)
    }
}

/// `insert_before` puts `d` at the insertion point and leaves the rest as
/// it is.
pub proof fn lemma_insert_before(s: Seq<DiagnosticView>, d: DiagnosticView)
    ensures
        0 <= insertion_point(s, d) <= s.len(),
        insert_before(s, d) == s.insert(insertion_point(s, d), d),
        forall|i: int|
            0 <= i < insertion_point(s, d) ==> (#[trigger] s[i]).primary_start() < d.primary_start(),
        insertion_point(s, d) < s.len() ==> d.primary_start() <= s[insertion_point(
            s,
            d,
        )].primary_start(),
    decreases s.len(),
{
    if s.len() == 0 {
        assert(insert_before(s, d) =~= s.insert(0, d));
    } else if d.primary_start() <= s.first().primary_start() {
        assert(insert_before(s, d) =~= s.insert(0, d));
    } else {
        let rest = s.drop_first();
        lemma_insert_before(rest, d);
        let k = insertion_point(rest, d);
        assert(seq![s.first()] + rest.insert(k, d) =~= s.insert(k + 1, d));
        assert forall|i: int| 0 <= i < k + 1 implies (#[trigger] s[i]).primary_start()
            < d.primary_start() by {
            if i > 0 {
                assert(s[i] == rest[i - 1]);
            }
        }
        if k < rest.len() {
            assert(s[k + 1] == rest[k]);
        }
    }
}

/// Putting a diagnostic into ordered ones keeps them ordered and adds
/// nothing but that diagnostic.
pub proof fn lemma_insert_before_ordered(s: Seq<DiagnosticView>, d: DiagnosticView)
    requires
        is_ordered(s),
    ensures
        is_ordered(insert_before(s, d)),
        insert_before(s, d).to_multiset() == s.to_multiset().insert(d),
{
    lemma_insert_before(s, d);
    let k = insertion_point(s, d);
    let r = s.insert(k, d);
    s.insert_ensures(k, d);
    assert forall|i: int, j: int| 0 <= i <= j < r.len() implies (#[trigger] r[i]).primary_start()
        <= (#[trigger] r[j]).primary_start() by {
        if j < k {
            assert(r[i] == s[i] && r[j] == s[j]);
        } else if j == k {
            if i < k {
                assert(r[i] == s[i]);
            }
        } else {
            assert(r[j] == s[j - 1]);
            if i < k {
                assert(r[i] == s[i]);
            } else if i == k {
                assert(d.primary_start() <= s[k].primary_start());
                assert(s[k].primary_start() <= s[j - 1].primary_start());
            } else {
                assert(r[i] == s[i - 1]);
            }
        }
    }
    let front = s.subrange(0, k);
    let back = s.subrange(k, s.len() as int);
    assert(front + back =~= s);
    lemma_multiset_commutative(front, back);
    lemma_multiset_commutative(front.push(d), back);
    front.to_multiset_ensures();
    assert(r.to_multiset() =~= s.to_multiset().insert(d));
}

/// The order of presentation is an order: offsets rise along it, and it
/// holds exactly the diagnostics that were reported, each as often as it
/// was reported.
pub proof fn lemma_presentation_order(s: Seq<DiagnosticView>)
    ensures
        is_ordered(presentation_order(s)),
        presentation_order(s).to_multiset() == s.to_multiset(),
        presentation_order(s).len() == s.len(),
    decreases s.len(),
{
    if s.len() == 0 {
        assert(s =~= Seq::<DiagnosticView>::empty());
    } else {
        let rest = s.drop_first();
        lemma_presentation_order(rest);
        lemma_insert_before_ordered(presentation_order(rest), s.first());
        s.to_multiset_ensures();
        assert(s.remove(0) =~= rest);
        assert(s.contains(s[0]));
        assert(rest.to_multiset() =~= s.to_multiset().remove(s[0]));
        assert(rest.to_multiset().insert(s[0]) =~= s.to_multiset());
        presentation_order(s).to_multiset_ensures();
    }
}

/// Ties are broken by the order of reporting. Of the diagnostics that
/// start at one offset, the order of presentation keeps the order in which
/// they were reported.
pub proof fn lemma_presentation_order_is_stable(s: Seq<DiagnosticView>, offset: nat)
    ensures
        presentation_order(s).filter(|d: DiagnosticView| d.primary_start() == offset) == s.filter(
            |d: DiagnosticView| d.primary_start() == offset,
        ),
    decreases s.len(),
{
    let at = |d: DiagnosticView| d.primary_start() == offset;
    if s.len() == 0 {
    } else {
        let rest = s.drop_first();
        let d = s.first();
        lemma_presentation_order_is_stable(rest, offset);
        lemma_presentation_order(rest);
        let sorted = presentation_order(rest);
        lemma_insert_before(sorted, d);
        let k = insertion_point(sorted, d);
        let front = sorted.subrange(0, k);
        let back = sorted.subrange(k, sorted.len() as int);
        assert(front + back =~= sorted);
        assert(sorted.insert(k, d) =~= (front + seq![d]) + back);
        assert(seq![d] + rest =~= s);
        Seq::filter_distributes_over_add(front, back, at);
        Seq::filter_distributes_over_add(front + seq![d], back, at);
        Seq::filter_distributes_over_add(front, seq![d], at);
        Seq::filter_distributes_over_add(seq![d], rest, at);
        assert(seq![d] =~= Seq::<DiagnosticView>::empty().push(d));
        Seq::<DiagnosticView>::empty().lemma_filter_push(d, at);
        Seq::<DiagnosticView>::empty().lemma_filter_len(at);
        assert(Seq::<DiagnosticView>::empty().filter(at) =~= Seq::<DiagnosticView>::empty());
        if at(d) {
            // Everything in front of the insertion point starts earlier.
            assert(front.filter(at).len() == 0) by {
                if front.filter(at).len() > 0 {
                    let x = front.filter(at)[0];
                    front.lemma_filter_pred(at, 0);
                    assert(front.filter(at).contains(x));
                    front.lemma_filter_contains_rev(at, x);
                    let i = choose|i: int| 0 <= i < front.len() && front[i] == x;
                    assert(sorted[i] == x);
                }
            }
            assert(front.filter(at) =~= Seq::<DiagnosticView>::empty());
            assert(presentation_order(s).filter(at) =~= s.filter(at));
        } else {
            assert(presentation_order(s).filter(at) =~= s.filter(at));
        }
    }
}

/// Puts diagnostics into the order of presentation.
pub fn sort_for_presentation(diagnostics: Vec<Diagnostic>) -> (r: Vec<Diagnostic>)
    ensures
        r.deep_view() == presentation_order(diagnostics.deep_view()),
        is_ordered(r.deep_view()),
        r.deep_view().to_multiset() == diagnostics.deep_view().to_multiset(),
{
    let ghost all = diagnostics.deep_view();
    let mut rest = diagnostics;
    let mut out: Vec<Diagnostic> = Vec::new();
    proof {
        assert(all.skip(all.len() as int) =~= Seq::<DiagnosticView>::empty());
        assert(out.deep_view() =~= Seq::<DiagnosticView>::empty());
    }
    while rest.len() > 0
        invariant
            rest.len() <= all.len(),
            rest.deep_view() == all.take(rest.len() as int),
            out.deep_view() == presentation_order(all.skip(rest.len() as int)),
        decreases rest.len(),
    {
        let ghost k = rest.len() as int;
        let ghost before = rest.deep_view();
        let d = rest.pop().unwrap();
        let ghost sorted = out.deep_view();
        proof {
            assert(d.deep_view() == before[k - 1]);
            assert(rest.deep_view() =~= all.take(k - 1));
            assert(all.skip(k - 1).drop_first() =~= all.skip(k));
            assert(all.skip(k - 1).first() == d@);
            lemma_insert_before(sorted, d@);
        }
        let key = d.primary_start();
        let mut i: usize = 0;
        proof {
            assert(sorted.skip(0) =~= sorted);
        }
        while i < out.len() && out[i].primary_start() < key
            invariant
                i <= out.len(),
                sorted == out.deep_view(),
                key == d@.primary_start(),
                insertion_point(sorted, d@) == i + insertion_point(sorted.skip(i as int), d@),
            decreases out.len() - i,
        {
            proof {
                assert(sorted.skip(i as int).first() == out@[i as int]@);
                assert(sorted.skip(i as int).drop_first() =~= sorted.skip(i + 1));
            }
            i = i + 1;
        }
        proof {
            if i < out.len() {
                assert(sorted.skip(i as int).first() == out@[i as int]@);
            }
            assert(insertion_point(sorted, d@) == i);
        }
        let ghost old_out = out@;
        out.insert(i, d);
        proof {
            assert(out.deep_view() =~= sorted.insert(i as int, d@)) by {
                old_out.insert_ensures(i as int, d);
                sorted.insert_ensures(i as int, d@);
                assert forall|j: int| 0 <= j < out@.len() implies (#[trigger] out.deep_view()[j])
                    == sorted.insert(i as int, d@)[j] by {
                    if j < i {
                        assert(out@[j] == old_out[j]);
                    } else if j > i {
                        assert(out@[j] == old_out[j - 1]);
                    }
                }
            }
        }
    }
    proof {
        assert(all.skip(0) =~= all);
        lemma_presentation_order(all);
    }
    out
}

} // verus!
