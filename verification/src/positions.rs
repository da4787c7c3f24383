//! The positions in a sequence at which something holds.

use vstd::prelude::*;

verus! {

/// The indices at which `flags` holds `true`, ascending.
pub open spec fn marked(flags: Seq<bool>) -> Seq<int>
    decreases flags.len(),
{
    if flags.len() == 0 {
        Seq::empty()
    } else {
        let before = marked(flags.drop_last());
        if flags.last() {
            before.push(flags.len() - 1)
        } else {
            before
        }
    }
}

/// `marked(flags)` holds indices of `flags` at which `true` stands, each
/// greater than the one before it, and it holds every such index.
pub proof fn lemma_marked(flags: Seq<bool>)
    ensures
        marked(flags).len() <= flags.len(),
        forall|i: int|
            0 <= i < marked(flags).len() ==> 0 <= (#[trigger] marked(flags)[i]) < flags.len()
                && flags[marked(flags)[i]],
        forall|i: int, j: int|
            0 <= i < j < marked(flags).len() ==> (#[trigger] marked(flags)[i]) < (
            #[trigger] marked(flags)[j]),
        forall|k: int| 0 <= k < flags.len() && #[trigger] flags[k] ==> marked(flags).contains(k),
    decreases flags.len(),
{
    if flags.len() > 0 {
        let before = flags.drop_last();
        let earlier = marked(before);
        let now = marked(flags);
        lemma_marked(before);
        assert forall|i: int| 0 <= i < now.len() implies 0 <= (#[trigger] now[i]) < flags.len()
            && flags[now[i]] by {
            if i < earlier.len() {
                assert(now[i] == earlier[i]);
                assert(before[earlier[i]] == flags[earlier[i]]);
            }
        }
        assert forall|i: int, j: int| 0 <= i < j < now.len() implies (#[trigger] now[i]) < (
        #[trigger] now[j]) by {
            assert(now[i] == earlier[i]);
            if j < earlier.len() {
                assert(now[j] == earlier[j]);
            }
        }
        assert forall|k: int| 0 <= k < flags.len() && #[trigger] flags[k] implies now.contains(
            k,
        ) by {
            if k < before.len() {
                assert(before[k] == flags[k]);
                assert(earlier.contains(k));
                let at = choose|at: int| 0 <= at < earlier.len() && earlier[at] == k;
                assert(now[at] == k);
            } else {
                assert(now[now.len() - 1] == k);
            }
        }
    }
}

/// Flags that hold `false` from the index `n` on mark the same indices as
/// their first `n`.
pub proof fn lemma_marked_prefix(flags: Seq<bool>, n: int)
    requires
        0 <= n <= flags.len(),
        forall|k: int| n <= k < flags.len() ==> !#[trigger] flags[k],
    ensures
        marked(flags) == marked(flags.take(n)),
    decreases flags.len(),
{
    if flags.len() > n {
        let before = flags.drop_last();
        assert forall|k: int| n <= k < before.len() implies !#[trigger] before[k] by {
            assert(before[k] == flags[k]);
        }
        lemma_marked_prefix(before, n);
        assert(before.take(n) =~= flags.take(n));
    } else {
        assert(flags.take(n) =~= flags);
    }
}

/// What a filter keeps are the elements at the marked indices, in their
/// order.
pub proof fn lemma_filter_keeps_marked<A>(s: Seq<A>, keep: spec_fn(A) -> bool)
    ensures
        s.filter(keep).len() == marked(s.map_values(keep)).len(),
        forall|i: int|
            0 <= i < s.filter(keep).len() ==> #[trigger] s.filter(keep)[i] == s[marked(
                s.map_values(keep),
            )[i]],
    decreases s.len(),
{
    reveal(Seq::filter);
    if s.len() > 0 {
        let before = s.drop_last();
        lemma_filter_keeps_marked(before, keep);
        lemma_marked(before.map_values(keep));
        assert(s.map_values(keep).drop_last() =~= before.map_values(keep));
        let earlier = marked(before.map_values(keep));
        assert forall|i: int| 0 <= i < s.filter(keep).len() implies #[trigger] s.filter(keep)[i]
            == s[marked(s.map_values(keep))[i]] by {
            if i < earlier.len() {
                assert(before[earlier[i]] == s[earlier[i]]);
            }
        }
    }
}

} // verus!
