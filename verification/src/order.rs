//! Ordering items by name, as the listing and the tree present them.

use vstd::prelude::*;

use crate::text::{chars_of, lemma_text_order, text_less, text_lt};

verus! {

broadcast use vstd::seq_lib::group_to_multiset_ensures, vstd::multiset::group_multiset_axioms;

/// Items that have a name to be ordered by.
pub trait Named {
    spec fn name_view(&self) -> Seq<char>;

    fn name_text(&self) -> (s: &str)
        ensures
            s@ == self.name_view(),
    ;
}

/// The items are in ascending order of name.
pub open spec fn sorted_by_name<T: Named>(s: Seq<T>) -> bool {
    forall|i: int, j: int| 0 <= i < j < s.len() ==> !text_lt(#[trigger] s[j].name_view(), #[trigger] s[i].name_view())
}

/// In a sequence in ascending order of name, no item's name sorts strictly
/// before the name of an item ahead of it.
pub proof fn lemma_sorted_is_ascending<T: Named>(s: Seq<T>, i: int, j: int)
    requires
        sorted_by_name(s),
        0 <= i < j < s.len(),
    ensures
        !text_lt(s[j].name_view(), s[i].name_view()),
{
}

/// The items of `items`, reordered by ascending name.
pub fn sort_by_name<T: Named>(items: Vec<T>) -> (sorted: Vec<T>)
    ensures
        sorted@.to_multiset() == items@.to_multiset(),
        sorted_by_name(sorted@),
{
    let mut rest = items;
    let mut out: Vec<T> = Vec::new();
    assert(out@.to_multiset() =~= vstd::multiset::Multiset::empty());
    while rest.len() > 0
        invariant
            out@.to_multiset().add(rest@.to_multiset()) == items@.to_multiset(),
            sorted_by_name(out@),
        decreases rest.len(),
    {
        let ghost rest0 = rest@;
        let x = rest.remove(0);
        assert(rest@ == rest0.remove(0));
        let key = chars_of(x.name_text());
        let mut k: usize = 0;
        while k < out.len() && !text_less(&key, &chars_of(out[k].name_text()))
            invariant
                k <= out@.len(),
                key@ == x.name_view(),
                forall|j: int| 0 <= j < k ==> !text_lt(key@, #[trigger] out@[j].name_view()),
            decreases out.len() - k,
        {
            k = k + 1;
        }
        let ghost out0 = out@;
        out.insert(k, x);
        proof {
            assert(out@.remove(k as int) =~= out0);
            assert(out@[k as int] == x);
            assert(out@.to_multiset() =~= out0.to_multiset().insert(x));
            assert forall|i: int, j: int| 0 <= i < j < out@.len() implies !text_lt(
                #[trigger] out@[j].name_view(),
                #[trigger] out@[i].name_view(),
            ) by {
                let a = out@[i].name_view();
                let b = out@[j].name_view();
                if i < k && j < k {
                    assert(out0[i] == out@[i] && out0[j] == out@[j]);
                } else if i > k && j > k {
                    assert(out0[i - 1] == out@[i] && out0[j - 1] == out@[j]);
                } else if i < k && j == k {
                    assert(out0[i] == out@[i]);
                    lemma_text_order(b, a, a);
                    lemma_text_order(a, b, a);
                } else if i == k && j > k {
                    assert(out0[j - 1] == out@[j]);
                    if k < out0.len() {
                        assert(text_lt(key@, out0[k as int].name_view()));
                        assert(!text_lt(out0[j - 1].name_view(), out0[k as int].name_view())
                            || j - 1 == k);
                        let c = out0[k as int].name_view();
                        lemma_text_order(a, c, b);
                        lemma_text_order(c, b, c);
                        lemma_text_order(b, a, c);
                        lemma_text_order(a, b, a);
                    }
                } else {
                    // i < k < j
                    assert(out0[i] == out@[i] && out0[j - 1] == out@[j]);
                }
            }
        }
    }
    assert(rest@.to_multiset() =~= vstd::multiset::Multiset::empty());
    out
}

} // verus!
