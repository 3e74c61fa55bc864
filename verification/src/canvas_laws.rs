use vstd::prelude::*;

use crate::canvas::{
    deleted_pairs, entries_transformed, lemma_deleted_pair_indices, recolored, reinsertable, removable, fresh_pairs, insert_pairs, occurrences, operation_counts, pair_indices, recolor_pairs,
    remove_indices, restored_color, transformed, values, Canvas, Object, Operation, Retraction, Stroke,
};
use crate::watched::Watched;

verus! {

proof fn lemma_values_remove_indices<A>(s: Seq<Watched<A>>, indices: Seq<usize>)
    requires
        removable(indices, s.len()),
    ensures
        values(remove_indices(s, indices)) == remove_indices(values(s), indices),
    decreases indices.len(),
{
    if indices.len() > 0 {
        let x = indices.last();
        lemma_removable_drop_last(indices, s.len());
        assert(values(s.remove(x as int)) =~= values(s).remove(x as int));
        lemma_values_remove_indices(s.remove(x as int), indices.drop_last());
    }
}

/// Removing the last position first leaves the others removable from what is left.
proof fn lemma_removable_drop_last(indices: Seq<usize>, n: nat)
    requires
        removable(indices, n),
        indices.len() > 0,
    ensures
        indices.last() < n,
        removable(indices.drop_last(), (n - 1) as nat),
{
    let k = indices.len();
    assert(indices[k - 1] + (k - (k - 1)) <= n);
    assert forall|j: int| 0 <= j < k - 1 implies #[trigger] indices.drop_last()[j] + ((k - 1) - j) <= n - 1 by {
        assert(indices[j] + (k - j) <= n);
    }
}

/// The pairs can be inserted in turn, the first one first, into a sequence
/// `length` long.
pub open spec fn insertable<A>(pairs: Seq<(usize, A)>, length: nat) -> bool {
    forall|m: int| 0 <= m < pairs.len() ==> #[trigger] pairs[m].0 <= length + m
}

proof fn lemma_insert_pairs_len<A>(s: Seq<A>, pairs: Seq<(usize, A)>)
    requires
        insertable(pairs, s.len()),
    ensures
        insert_pairs(s, pairs).len() == s.len() + pairs.len(),
    decreases pairs.len(),
{
    if pairs.len() > 0 {
        let rest = pairs.drop_last();
        assert(pair_indices(rest) =~= pair_indices(pairs).drop_last());
        assert forall|m: int| 0 <= m < rest.len() implies #[trigger] rest[m].0 <= s.len() + m by {
            assert(pairs[m].0 <= s.len() + m);
        }
        lemma_insert_pairs_len(s, rest);
        assert(pairs[pairs.len() - 1].0 <= s.len() + pairs.len() - 1);
    }
}

proof fn lemma_values_insert_pairs<A>(s: Seq<Watched<A>>, pairs: Seq<(usize, A)>)
    requires
        insertable(pairs, s.len()),
    ensures
        values(insert_pairs(s, fresh_pairs(pairs))) == insert_pairs(values(s), pairs),
    decreases pairs.len(),
{
    if pairs.len() > 0 {
        let rest = pairs.drop_last();
        assert(fresh_pairs(pairs).drop_last() =~= fresh_pairs(rest));
        assert(pair_indices(rest) =~= pair_indices(pairs).drop_last());
        assert forall|m: int| 0 <= m < rest.len() implies #[trigger] rest[m].0 <= s.len() + m by {
            assert(pairs[m].0 <= s.len() + m);
        }
        lemma_values_insert_pairs(s, rest);
        assert(pair_indices(fresh_pairs(rest)) =~= pair_indices(rest));
        lemma_insert_pairs_len(s, fresh_pairs(rest));
        let last = pairs.last();
        assert(last.0 <= s.len() + rest.len());
        Watched::<A>::lemma_spec_new(last.1);
        let t = insert_pairs(s, fresh_pairs(rest));
        assert(values(t.insert(last.0 as int, Watched::spec_new(last.1))) =~= values(t).insert(last.0 as int, last.1));
    }
}

/// Putting back what a deletion took out restores the sequence.
proof fn lemma_insert_deleted<A>(s: Seq<A>, indices: Seq<usize>)
    requires
        removable(indices, s.len()),
    ensures
        insert_pairs(remove_indices(s, indices), deleted_pairs(s, indices).reverse()) == s,
    decreases indices.len(),
{
    if indices.len() > 0 {
        let x = indices.last();
        let rest = indices.drop_last();
        let t = s.remove(x as int);
        lemma_removable_drop_last(indices, s.len());
        lemma_insert_deleted(t, rest);
        let tail = deleted_pairs(t, rest);
        let reversed = deleted_pairs(s, indices).reverse();
        assert(deleted_pairs(s, indices) == seq![(x, s[x as int])] + tail);
        assert(reversed =~= tail.reverse().push((x, s[x as int])));
        assert(reversed.drop_last() =~= tail.reverse());
        assert(t.insert(x as int, s[x as int]) =~= s);
    }
}

proof fn lemma_remove_indices_len<A>(s: Seq<A>, indices: Seq<usize>)
    requires
        removable(indices, s.len()),
    ensures
        remove_indices(s, indices).len() == s.len() - indices.len(),
    decreases indices.len(),
{
    if indices.len() > 0 {
        lemma_removable_drop_last(indices, s.len());
        lemma_remove_indices_len(s.remove(indices.last() as int), indices.drop_last());
    }
}

/// Deleting what was just inserted restores the sequence.
proof fn lemma_remove_inserted<A>(s: Seq<A>, pairs: Seq<(usize, A)>)
    requires
        insertable(pairs, s.len()),
    ensures
        remove_indices(insert_pairs(s, pairs), pair_indices(pairs)) == s,
    decreases pairs.len(),
{
    if pairs.len() > 0 {
        let rest = pairs.drop_last();
        assert(pair_indices(rest) =~= pair_indices(pairs).drop_last());
        assert forall|m: int| 0 <= m < rest.len() implies #[trigger] rest[m].0 <= s.len() + m by {
            assert(pairs[m].0 <= s.len() + m);
        }
        lemma_remove_inserted(s, rest);
        lemma_insert_pairs_len(s, rest);
        let t = insert_pairs(s, rest);
        let last = pairs.last();
        assert(last.0 <= s.len() + rest.len());
        assert(t.insert(last.0 as int, last.1).remove(last.0 as int) =~= t);
        assert(pair_indices(pairs).last() == last.0);
    }
}

/// Removing elements leaves everything before all their positions in place.
proof fn lemma_remove_indices_prefix<A>(s: Seq<A>, indices: Seq<usize>, i: int)
    requires
        removable(indices, s.len()),
        indices.len() > 0,
        0 <= i,
        forall|j: int| 0 <= j < indices.len() ==> i < #[trigger] indices[j],
    ensures
        i < remove_indices(s, indices).len(),
        remove_indices(s, indices)[i] == s[i],
    decreases indices.len(),
{
    let x = indices.last();
    let rest = indices.drop_last();
    let t = s.remove(x as int);
    lemma_removable_drop_last(indices, s.len());
    assert(i < indices[indices.len() - 1]);
    if rest.len() > 0 {
        assert forall|j: int| 0 <= j < rest.len() implies i < #[trigger] rest[j] by {
            assert(i < indices[j]);
        }
        lemma_remove_indices_prefix(t, rest, i);
    } else {
        assert(remove_indices(t, rest) == t);
    }
}

/// Inserting leaves everything before all the positions in place.
proof fn lemma_insert_pairs_prefix<A>(s: Seq<A>, pairs: Seq<(usize, A)>, i: int)
    requires
        insertable(pairs, s.len()),
        pairs.len() > 0,
        0 <= i,
        forall|m: int| 0 <= m < pairs.len() ==> i < #[trigger] pairs[m].0,
    ensures
        i < insert_pairs(s, pairs).len(),
        insert_pairs(s, pairs)[i] == s[i],
    decreases pairs.len(),
{
    let rest = pairs.drop_last();
    let last = pairs.last();
    assert forall|m: int| 0 <= m < rest.len() implies #[trigger] rest[m].0 <= s.len() + m by {
        assert(pairs[m].0 <= s.len() + m);
    }
    assert(pairs[0].0 <= s.len() + 0);
    assert(i < pairs[0].0);
    assert(i < pairs[pairs.len() - 1].0);
    lemma_insert_pairs_len(s, rest);
    if rest.len() > 0 {
        assert forall|m: int| 0 <= m < rest.len() implies i < #[trigger] rest[m].0 by {
            assert(i < pairs[m].0);
        }
        lemma_insert_pairs_prefix(s, rest, i);
    } else {
        assert(insert_pairs(s, rest) == s);
    }
}

/// The pairs a deletion recorded, taken in reverse, can be inserted in turn.
proof fn lemma_reinsertable<A, B>(s0: Seq<B>, pairs: Seq<(usize, A)>)
    requires
        reinsertable(pair_indices(pairs), s0.len()),
    ensures
        insertable(fresh_pairs(pairs.reverse()), s0.len()),
        pair_indices(fresh_pairs(pairs.reverse())) == pair_indices(pairs).reverse(),
{
    let q = fresh_pairs(pairs.reverse());
    let k = pairs.len();
    assert(pair_indices(q) =~= pair_indices(pairs).reverse());
    assert forall|m: int| 0 <= m < q.len() implies #[trigger] q[m].0 <= s0.len() + m by {
        assert(pair_indices(pairs)[k - 1 - m] + (k - 1 - m) + 1 <= s0.len() + k);
    }
}

proof fn lemma_restored_recolor_pairs<G, P>(s: Seq<Object<Stroke<G>, P>>, indices: Seq<usize>, color: crate::color::Srgba8, k: usize)
    requires
        indices.no_duplicates(),
    ensures
        restored_color(recolor_pairs(s, indices, color), k) == if indices.contains(k) && k < s.len() {
            Some(s[k as int].object.color)
        } else {
            None
        },
    decreases indices.len(),
{
    if indices.len() > 0 {
        let rest = indices.drop_last();
        let i = indices.last();
        assert(rest.no_duplicates()) by {
            assert forall|a: int, b: int| 0 <= a < rest.len() && 0 <= b < rest.len() && a != b implies rest[a] != rest[b] by {
                assert(indices[a] != indices[b]);
            }
        }
        lemma_restored_recolor_pairs(s, rest, color, k);
        assert(!rest.contains(i)) by {
            if rest.contains(i) {
                let w = choose|w: int| 0 <= w < rest.len() && rest[w] == i;
                assert(indices[w] == indices[indices.len() - 1]);
            }
        }
        assert(indices.contains(k) == (rest.contains(k) || k == i)) by {
            if indices.contains(k) && k != i {
                let w = choose|w: int| 0 <= w < indices.len() && indices[w] == k;
                assert(rest[w] == k);
            }
            if rest.contains(k) {
                let w = choose|w: int| 0 <= w < rest.len() && rest[w] == k;
                assert(indices[w] == k);
            }
            if k == i {
                assert(indices[indices.len() - 1] == k);
            }
        }
        let previous = recolor_pairs(s, rest, color);
        if i < s.len() {
            let pushed = previous.push((i, s[i as int].object.color));
            assert(pushed.drop_last() =~= previous);
        }
    }
}

/// A position has a colour to restore exactly when some pair names it.
proof fn lemma_restored_color_some(pairs: Seq<(usize, crate::color::Srgba8)>, k: usize)
    ensures
        restored_color(pairs, k) is Some <==> pair_indices(pairs).contains(k),
    decreases pairs.len(),
{
    if pairs.len() > 0 {
        let rest = pairs.drop_last();
        let all = pair_indices(pairs);
        lemma_restored_color_some(rest, k);
        assert(pair_indices(rest) =~= all.drop_last());
        if all.contains(k) && pairs.last().0 != k {
            let w = choose|w: int| 0 <= w < all.len() && all[w] == k;
            assert(w < all.len() - 1);
            assert(pair_indices(rest)[w] == k);
        }
        if pair_indices(rest).contains(k) {
            let w = choose|w: int| 0 <= w < pair_indices(rest).len() && pair_indices(rest)[w] == k;
            assert(all[w] == k);
        }
        if pairs.last().0 == k {
            assert(all[all.len() - 1] == k);
        }
    }
}

/// Whether the operation is one that `undo` takes back exactly.
pub open spec fn exactly_undoable<P, T, E, G>(operation: Operation<P, T, E, G>) -> bool {
    match operation {
        Operation::RecolorStrokes { indices, .. } => indices@.no_duplicates(),
        Operation::TransformObjects { .. } => false,
        _ => true,
    }
}

/// Transforming a placement by `t` in the direction `inverse` and then once
/// in the other direction always gives the placement back.
pub open spec fn exactly_invertible<P, T, F: Fn(&P, &T, bool) -> P>(transform: F, t: T, inverse: bool) -> bool {
    if inverse {
        forall|p: P, m: P, q: P|
            #[trigger] call_ensures(transform, (&p, &t, true), m) && #[trigger] call_ensures(transform, (&m, &t, false), q) ==> q == p
    } else {
        forall|p: P, m: P, q: P|
            #[trigger] call_ensures(transform, (&p, &t, false), m) && #[trigger] call_ensures(transform, (&m, &t, true), q) ==> q == p
    }
}

/// A chain of transformations can also be split after its first step.
proof fn lemma_transformed_first_step<P, T, F: Fn(&P, &T, bool) -> P>(transform: F, t: T, inverse: bool, before: P, after: P, times: nat)
    requires
        times > 0,
        transformed(transform, t, inverse, before, after, times),
    ensures
        exists|next: P|
            #[trigger] call_ensures(transform, (&before, &t, inverse), next) && transformed(transform, t, inverse, next, after, (times - 1) as nat),
    decreases times,
{
    let middle = choose|middle: P|
        transformed(transform, t, inverse, before, middle, (times - 1) as nat) && #[trigger] call_ensures(transform, (&middle, &t, inverse), after);
    if times == 1 {
        assert(middle == before);
        assert(transformed(transform, t, inverse, after, after, 0));
    } else {
        lemma_transformed_first_step(transform, t, inverse, before, middle, (times - 1) as nat);
        let next = choose|next: P|
            #[trigger] call_ensures(transform, (&before, &t, inverse), next) && transformed(transform, t, inverse, next, middle, (times - 2) as nat);
        assert(transformed(transform, t, inverse, next, after, (times - 1) as nat));
    }
}

/// Transforming in one direction and then in the other the same number of
/// times gives the placement back when each step is exactly invertible.
proof fn lemma_transformed_round_trip<P, T, F: Fn(&P, &T, bool) -> P>(transform: F, t: T, inverse: bool, p: P, m: P, q: P, times: nat)
    requires
        exactly_invertible(transform, t, inverse),
        transformed(transform, t, inverse, p, m, times),
        transformed(transform, t, !inverse, m, q, times),
    ensures
        q == p,
    decreases times,
{
    if times > 0 {
        let back = !inverse;
        let previous = choose|middle: P|
            transformed(transform, t, inverse, p, middle, (times - 1) as nat) && #[trigger] call_ensures(transform, (&middle, &t, inverse), m);
        lemma_transformed_first_step(transform, t, back, m, q, times);
        let next = choose|next: P|
            #[trigger] call_ensures(transform, (&m, &t, back), next) && transformed(transform, t, back, next, q, (times - 1) as nat);
        assert(next == previous);
        lemma_transformed_round_trip(transform, t, inverse, p, previous, q, (times - 1) as nat);
    }
}

impl<P, T, E, G, X> Canvas<P, T, E, G, X> {
    proof fn lemma_applied_then_reverted<F: Fn(&P, &T, bool) -> P>(
        c0: Self,
        c1: Self,
        c2: Self,
        operation: Operation<P, T, E, G>,
        retraction: Retraction<P, T, E, G>,
        produced: Operation<P, T, E, G>,
        transform: F,
    )
        requires
            c0.wf(),
            operation_counts(operation, c0.counts()) is Some,
            Self::applied(c0, c1, operation, retraction, transform),
            Self::reverted(c1, c2, retraction, produced, transform),
        ensures
            exactly_undoable(operation) ==> {
                &&& values(c2.image_entries()) == values(c0.image_entries())
                &&& values(c2.stroke_entries()) == values(c0.stroke_entries())
            },
            operation matches Operation::TransformObjects { image_indices, stroke_indices, transformation } ==> {
                &&& Self::transformed_back(c0.image_entries(), c2.image_entries(), image_indices@, transformation, transform, false)
                &&& Self::transformed_back(c0.stroke_entries(), c2.stroke_entries(), stroke_indices@, transformation, transform, false)
            },
    {
        match operation {
            Operation::CommitStrokes { strokes } => {
                let n = c1.stroke_entries().len();
                assert(c1.stroke_entries().subrange(0, n - strokes@.len()) =~= c0.stroke_entries());
            },
            Operation::CommitImages { images } => {
                let n = c1.image_entries().len();
                assert(c1.image_entries().subrange(0, n - images@.len()) =~= c0.image_entries());
            },
            Operation::DeleteObjects { monotone_image_indices: mi, monotone_stroke_indices: ms } => {
                if let Retraction::DeleteObjects { antitone_index_image_pairs: ip, antitone_index_stroke_pairs: sp } = retraction {
                    Self::lemma_delete_then_reinsert(c0.image_entries(), c1.image_entries(), c2.image_entries(), mi@, ip@);
                    Self::lemma_delete_then_reinsert(c0.stroke_entries(), c1.stroke_entries(), c2.stroke_entries(), ms@, sp@);
                }
            },
            Operation::RecolorStrokes { indices, new_color } => {
                if let Retraction::RecolorStrokes { index_color_pairs: pairs, .. } = retraction {
                    if indices@.no_duplicates() {
                        let v0 = values(c0.stroke_entries());
                        assert forall|k: int| 0 <= k < v0.len() implies #[trigger] values(c2.stroke_entries())[k] == v0[k] by {
                            lemma_restored_recolor_pairs(v0, indices@, new_color, k as usize);
                            let _ = c1.stroke_entries()[k];
                            let _ = c2.stroke_entries()[k];
                        }
                        assert(values(c2.stroke_entries()) =~= v0);
                    }
                }
            },
            Operation::TransformObjects { image_indices, stroke_indices, transformation } => {
                Self::lemma_entries_transformed_back(c0.image_entries(), c1.image_entries(), c2.image_entries(), image_indices@, transformation, transform, false);
                Self::lemma_entries_transformed_back(c0.stroke_entries(), c1.stroke_entries(), c2.stroke_entries(), stroke_indices@, transformation, transform, false);
            },
        }
    }

    /// At position `k`, `after` keeps what `before` holds apart from its
    /// placement, which was transformed in the direction `inverse` and then in
    /// the other direction, each as many times as `k` occurs in `indices`.
    pub open spec fn transformed_back_at<O, F: Fn(&P, &T, bool) -> P>(
        before: Seq<Watched<Object<O, P>>>,
        after: Seq<Watched<Object<O, P>>>,
        indices: Seq<usize>,
        t: T,
        transform: F,
        inverse: bool,
        k: int,
    ) -> bool {
        let times = occurrences(indices, k as usize);
        &&& after[k].value().object == before[k].value().object
        &&& after[k].value().is_selected == before[k].value().is_selected
        &&& exists|middle: P|
            transformed(transform, t, inverse, before[k].value().placement, middle, times)
                && transformed(transform, t, !inverse, middle, after[k].value().placement, times)
    }

    /// `transformed_back_at` holds at every position.
    pub open spec fn transformed_back<O, F: Fn(&P, &T, bool) -> P>(
        before: Seq<Watched<Object<O, P>>>,
        after: Seq<Watched<Object<O, P>>>,
        indices: Seq<usize>,
        t: T,
        transform: F,
        inverse: bool,
    ) -> bool {
        &&& after.len() == before.len()
        &&& forall|k: int| 0 <= k < before.len() ==> #[trigger] Self::transformed_back_at(before, after, indices, t, transform, inverse, k)
    }

    /// Transforming the entries at `indices` one way and then the other way
    /// moves each placement there and back.
    proof fn lemma_entries_transformed_back<O, F: Fn(&P, &T, bool) -> P>(
        s0: Seq<Watched<Object<O, P>>>,
        s1: Seq<Watched<Object<O, P>>>,
        s2: Seq<Watched<Object<O, P>>>,
        indices: Seq<usize>,
        t: T,
        transform: F,
        inverse: bool,
    )
        requires
            entries_transformed(s0, s1, indices, t, inverse, transform),
            entries_transformed(s1, s2, indices, t, !inverse, transform),
        ensures
            Self::transformed_back(s0, s2, indices, t, transform, inverse),
    {
        assert forall|k: int| 0 <= k < s0.len() implies #[trigger] Self::transformed_back_at(s0, s2, indices, t, transform, inverse, k) by {
            let _ = s1[k];
            let _ = s2[k];
        }
    }

    /// With an exactly invertible transformation, transforming there and back
    /// gives the objects back.
    proof fn lemma_transformed_back_exact<O, F: Fn(&P, &T, bool) -> P>(
        before: Seq<Watched<Object<O, P>>>,
        after: Seq<Watched<Object<O, P>>>,
        indices: Seq<usize>,
        t: T,
        transform: F,
        inverse: bool,
    )
        requires
            Self::transformed_back(before, after, indices, t, transform, inverse),
            exactly_invertible(transform, t, inverse),
        ensures
            values(after) == values(before),
    {
        assert forall|k: int| 0 <= k < before.len() implies #[trigger] values(after)[k] == values(before)[k] by {
            assert(Self::transformed_back_at(before, after, indices, t, transform, inverse, k));
            let times = occurrences(indices, k as usize);
            let middle = choose|middle: P|
                transformed(transform, t, inverse, before[k].value().placement, middle, times)
                    && transformed(transform, t, !inverse, middle, after[k].value().placement, times);
            lemma_transformed_round_trip(transform, t, inverse, before[k].value().placement, middle, after[k].value().placement, times);
        }
        assert(values(after) =~= values(before));
    }

    proof fn lemma_delete_then_reinsert<A>(
        s0: Seq<Watched<A>>,
        s1: Seq<Watched<A>>,
        s2: Seq<Watched<A>>,
        indices: Seq<usize>,
        pairs: Seq<(usize, A)>,
    )
        requires
            removable(indices, s0.len()),
            s1 == remove_indices(s0, indices),
            pairs == deleted_pairs(values(s0), indices),
            s2 == insert_pairs(s1, fresh_pairs(pairs.reverse())),
        ensures
            values(s2) == values(s0),
    {
        lemma_remove_indices_len(s0, indices);
        lemma_deleted_pair_indices(values(s0), indices);
        let ascending = pairs.reverse();
        let k = indices.len();
        assert(pairs.len() == k) by {
            assert(pair_indices(pairs).len() == pairs.len());
        }
        assert forall|m: int| 0 <= m < k implies #[trigger] pair_indices(ascending)[m] == indices[m] by {
            assert(pair_indices(pairs)[k - 1 - m] == indices.reverse()[k - 1 - m]);
        }
        assert(pair_indices(ascending) =~= indices);
        assert forall|m: int| 0 <= m < ascending.len() implies #[trigger] ascending[m].0 <= s1.len() + m by {
            assert(pair_indices(ascending)[m] == indices[m]);
            assert(indices[m] + (k - m) <= s0.len());
        }
        lemma_values_insert_pairs(s1, ascending);
        lemma_values_remove_indices(s0, indices);
        lemma_insert_deleted(values(s0), indices);
    }

    /// Undoing right after `redo` takes the operation back: the objects hold
    /// their former values again (a transformation's placements are instead
    /// moved forwards and then backwards, which gives them back when the
    /// transformation is exactly invertible), and the history has its former
    /// depth.
    pub proof fn law_undo_takes_back_redo<F: Fn(&P, &T, bool) -> P>(c0: Self, c1: Self, c2: Self, transform: F)
        requires
            c0.wf(),
            c0.pending_operations().len() > 0,
            Self::redone(c0, c1, transform),
            Self::undone(c1, c2, transform),
        ensures
            exactly_undoable(c0.pending_operations().last()) ==> {
                &&& values(c2.image_entries()) == values(c0.image_entries())
                &&& values(c2.stroke_entries()) == values(c0.stroke_entries())
            },
            c0.pending_operations().last() matches Operation::TransformObjects { image_indices, stroke_indices, transformation } ==> {
                &&& Self::transformed_back(c0.image_entries(), c2.image_entries(), image_indices@, transformation, transform, false)
                &&& Self::transformed_back(c0.stroke_entries(), c2.stroke_entries(), stroke_indices@, transformation, transform, false)
            },
            c0.pending_operations().last() matches Operation::TransformObjects { transformation, .. }
                && exactly_invertible(transform, transformation, false) ==> {
                &&& values(c2.image_entries()) == values(c0.image_entries())
                &&& values(c2.stroke_entries()) == values(c0.stroke_entries())
            },
            c2.retractions() == c0.retractions(),
            c2.pending_operations().len() == c0.pending_operations().len(),
            c2.pending_operations().drop_last() == c0.pending_operations().drop_last(),
            c2.is_saved_spec() == c0.is_saved_spec(),
    {
        let operation = c0.pending_operations().last();
        let retraction = c1.retractions().last();
        assert(c1.retractions().len() > 0);
        assert(c2.retractions() =~= c0.retractions());
        Self::lemma_applied_then_reverted(c0, c1, c2, operation, retraction, c2.pending_operations().last(), transform);
        if let Operation::TransformObjects { image_indices, stroke_indices, transformation } = operation {
            if exactly_invertible(transform, transformation, false) {
                Self::lemma_transformed_back_exact(c0.image_entries(), c2.image_entries(), image_indices@, transformation, transform, false);
                Self::lemma_transformed_back_exact(c0.stroke_entries(), c2.stroke_entries(), stroke_indices@, transformation, transform, false);
            }
        }
    }

    /// Undoing right after `perform_operation` takes the operation back, as for
    /// `redo`, and leaves exactly that operation to be redone.
    pub proof fn law_undo_takes_back_perform<F: Fn(&P, &T, bool) -> P>(
        c0: Self,
        c1: Self,
        c2: Self,
        operation: Operation<P, T, E, G>,
        transform: F,
    )
        requires
            c0.wf(),
            operation_counts(operation, c0.counts()) is Some,
            Self::performed(c0, c1, operation, transform),
            Self::undone(c1, c2, transform),
        ensures
            exactly_undoable(operation) ==> {
                &&& values(c2.image_entries()) == values(c0.image_entries())
                &&& values(c2.stroke_entries()) == values(c0.stroke_entries())
            },
            operation matches Operation::TransformObjects { image_indices, stroke_indices, transformation } ==> {
                &&& Self::transformed_back(c0.image_entries(), c2.image_entries(), image_indices@, transformation, transform, false)
                &&& Self::transformed_back(c0.stroke_entries(), c2.stroke_entries(), stroke_indices@, transformation, transform, false)
            },
            operation matches Operation::TransformObjects { transformation, .. } && exactly_invertible(transform, transformation, false) ==> {
                &&& values(c2.image_entries()) == values(c0.image_entries())
                &&& values(c2.stroke_entries()) == values(c0.stroke_entries())
            },
            c2.retractions() == c0.retractions(),
            c2.pending_operations().len() == 1,
    {
        let retraction = c1.retractions().last();
        assert(c1.retractions().len() > 0);
        assert(c2.retractions() =~= c0.retractions());
        Self::lemma_applied_then_reverted(c0, c1, c2, operation, retraction, c2.pending_operations().last(), transform);
        if let Operation::TransformObjects { image_indices, stroke_indices, transformation } = operation {
            if exactly_invertible(transform, transformation, false) {
                Self::lemma_transformed_back_exact(c0.image_entries(), c2.image_entries(), image_indices@, transformation, transform, false);
                Self::lemma_transformed_back_exact(c0.stroke_entries(), c2.stroke_entries(), stroke_indices@, transformation, transform, false);
            }
        }
    }
}

impl<P, T, E, G, X> Canvas<P, T, E, G, X> {
    /// Redoing right after `undo` puts the undone step back: a deletion
    /// removes exactly the objects it removed before, while a commit of several
    /// objects comes back with those objects in reverse order; a recolouring
    /// gives the recorded strokes its colour again, which gives back the former
    /// strokes where they had that colour; a transformation moves the
    /// placements backwards and then forwards, which gives them back when the
    /// transformation is exactly invertible that way round. The history
    /// returns to its former state.
    pub proof fn law_redo_after_undo<F: Fn(&P, &T, bool) -> P>(c0: Self, c1: Self, c2: Self, transform: F)
        requires
            c0.wf(),
            c0.retractions().len() > 0,
            Self::undone(c0, c1, transform),
            Self::redone(c1, c2, transform),
        ensures
            c0.retractions().last() matches Retraction::CommitStrokes(n) ==> {
                let s = c0.stroke_entries();
                &&& c2.stroke_entries() == s.subrange(0, s.len() - n) + s.subrange(s.len() - n, s.len() as int).reverse()
                &&& c2.image_entries() == c0.image_entries()
            },
            c0.retractions().last() matches Retraction::CommitImages(n) ==> {
                let s = c0.image_entries();
                &&& c2.image_entries() == s.subrange(0, s.len() - n) + s.subrange(s.len() - n, s.len() as int).reverse()
                &&& c2.stroke_entries() == c0.stroke_entries()
            },
            c0.retractions().last() is DeleteObjects ==> {
                &&& c2.image_entries() == c0.image_entries()
                &&& c2.stroke_entries() == c0.stroke_entries()
            },
            c0.retractions().last() matches Retraction::RecolorStrokes { index_color_pairs: pairs, new_color } ==> {
                let v0 = values(c0.stroke_entries());
                &&& c2.image_entries() == c0.image_entries()
                &&& c2.stroke_entries().len() == c0.stroke_entries().len()
                &&& forall|k: int| 0 <= k < v0.len() ==> #[trigger] values(c2.stroke_entries())[k] == if pair_indices(pairs@).contains(k as usize) {
                    recolored(v0[k], new_color)
                } else {
                    v0[k]
                }
                &&& (forall|k: int| 0 <= k < v0.len() && pair_indices(pairs@).contains(k as usize) ==> #[trigger] v0[k].object.color == new_color)
                    ==> values(c2.stroke_entries()) == v0
            },
            c0.retractions().last() matches Retraction::TransformObjects { image_indices, stroke_indices, transformation } ==> {
                &&& Self::transformed_back(c0.image_entries(), c2.image_entries(), image_indices@, transformation, transform, true)
                &&& Self::transformed_back(c0.stroke_entries(), c2.stroke_entries(), stroke_indices@, transformation, transform, true)
                &&& exactly_invertible(transform, transformation, true) ==> {
                    &&& values(c2.image_entries()) == values(c0.image_entries())
                    &&& values(c2.stroke_entries()) == values(c0.stroke_entries())
                }
            },
            c2.pending_operations() == c0.pending_operations(),
            c2.retractions().len() == c0.retractions().len(),
            c2.retractions().drop_last() == c0.retractions().drop_last(),
            c2.is_saved_spec() == c0.is_saved_spec(),
    {
        assert(c1.pending_operations().len() > 0);
        assert(c2.pending_operations() =~= c0.pending_operations());
        assert(c2.retractions().drop_last() =~= c0.retractions().drop_last());
        let retraction = c0.retractions().last();
        match retraction {
            Retraction::DeleteObjects { antitone_index_image_pairs: ip, antitone_index_stroke_pairs: sp } => {
                Self::lemma_reinsert_then_delete(c0.image_entries(), ip@);
                Self::lemma_reinsert_then_delete(c0.stroke_entries(), sp@);
            },
            Retraction::RecolorStrokes { index_color_pairs: pairs, new_color } => {
                let v0 = values(c0.stroke_entries());
                assert forall|k: int| 0 <= k < v0.len() implies #[trigger] values(c2.stroke_entries())[k] == if pair_indices(pairs@).contains(k as usize) {
                    recolored(v0[k], new_color)
                } else {
                    v0[k]
                } by {
                    lemma_restored_color_some(pairs@, k as usize);
                    let _ = c1.stroke_entries()[k];
                    let _ = c2.stroke_entries()[k];
                }
                if forall|k: int| 0 <= k < v0.len() && pair_indices(pairs@).contains(k as usize) ==> #[trigger] v0[k].object.color == new_color {
                    assert forall|k: int| 0 <= k < v0.len() implies #[trigger] values(c2.stroke_entries())[k] == v0[k] by {
                        let _ = values(c2.stroke_entries())[k];
                        if pair_indices(pairs@).contains(k as usize) {
                            assert(v0[k].object.color == new_color);
                        }
                    }
                    assert(values(c2.stroke_entries()) =~= v0);
                }
            },
            Retraction::TransformObjects { image_indices, stroke_indices, transformation } => {
                Self::lemma_entries_transformed_back(c0.image_entries(), c1.image_entries(), c2.image_entries(), image_indices@, transformation, transform, true);
                Self::lemma_entries_transformed_back(c0.stroke_entries(), c1.stroke_entries(), c2.stroke_entries(), stroke_indices@, transformation, transform, true);
                if exactly_invertible(transform, transformation, true) {
                    Self::lemma_transformed_back_exact(c0.image_entries(), c2.image_entries(), image_indices@, transformation, transform, true);
                    Self::lemma_transformed_back_exact(c0.stroke_entries(), c2.stroke_entries(), stroke_indices@, transformation, transform, true);
                }
            },
            _ => {},
        }
    }

    proof fn lemma_reinsert_then_delete<A>(s0: Seq<Watched<A>>, pairs: Seq<(usize, A)>)
        requires
            reinsertable(pair_indices(pairs), s0.len()),
        ensures
            remove_indices(insert_pairs(s0, fresh_pairs(pairs.reverse())), pair_indices(pairs).reverse()) == s0,
    {
        lemma_reinsertable(s0, pairs);
        lemma_remove_inserted(s0, fresh_pairs(pairs.reverse()));
    }

    /// Any edit leaves the canvas unsaved.
    pub proof fn law_perform_unsaves<F: Fn(&P, &T, bool) -> P>(
        c0: Self,
        c1: Self,
        operation: Operation<P, T, E, G>,
        transform: F,
    )
        requires
            c0.wf(),
            c1.wf(),
            Self::performed(c0, c1, operation, transform),
        ensures
            !c1.is_saved_spec(),
    {
    }

    /// Once an edit is made after undoing past the saved state, no sequence of
    /// undos and redos reaches a saved state again: the canvas keeps no saved
    /// retraction count.
    pub proof fn law_save_point_lost<F: Fn(&P, &T, bool) -> P>(
        c0: Self,
        c1: Self,
        operation: Operation<P, T, E, G>,
        transform: F,
    )
        requires
            c0.wf(),
            c0.saved_retraction_count() matches Some(c) && c0.retractions().len() < c,
            Self::performed(c0, c1, operation, transform),
        ensures
            c1.saved_retraction_count() is None,
            forall|c2: Self| Self::undone(c1, c2, transform) ==> !c2.is_saved_spec() && c2.saved_retraction_count() is None,
            forall|c2: Self| Self::redone(c1, c2, transform) ==> !c2.is_saved_spec() && c2.saved_retraction_count() is None,
    {
    }

    /// One step of the editing history: an undo, a redo or a new operation.
    pub open spec fn history_step<F: Fn(&P, &T, bool) -> P>(before: Self, after: Self, transform: F) -> bool {
        ||| Self::undone(before, after, transform)
        ||| Self::redone(before, after, transform)
        ||| exists|operation: Operation<P, T, E, G>| #[trigger] Self::performed(before, after, operation, transform)
    }

    /// Each state of `states` follows from the one before it by one step of
    /// the editing history.
    pub open spec fn history_steps<F: Fn(&P, &T, bool) -> P>(states: Seq<Self>, transform: F) -> bool {
        forall|i: int| 0 < i < states.len() ==> Self::history_step(states[i - 1], #[trigger] states[i], transform)
    }

    /// Once the saved state can no longer be reached (the canvas keeps no saved
    /// retraction count), no sequence of undos, redos and new operations makes
    /// the canvas saved again.
    pub proof fn law_unsaved_for_good<F: Fn(&P, &T, bool) -> P>(states: Seq<Self>, transform: F)
        requires
            states.len() > 0,
            states[0].saved_retraction_count() is None,
            Self::history_steps(states, transform),
        ensures
            forall|i: int| 0 <= i < states.len() ==> {
                &&& (#[trigger] states[i]).saved_retraction_count() is None
                &&& !states[i].is_saved_spec()
            },
        decreases states.len(),
    {
        if states.len() > 1 {
            let rest = states.drop_last();
            assert forall|i: int| 0 < i < rest.len() implies Self::history_step(rest[i - 1], #[trigger] rest[i], transform) by {
                assert(Self::history_step(states[i - 1], states[i], transform));
            }
            Self::law_unsaved_for_good(rest, transform);
            let j = states.len() - 1;
            assert(rest[j - 1] == states[j - 1]);
            assert(Self::history_step(states[j - 1], states[j], transform));
            assert forall|i: int| 0 <= i < states.len() implies (#[trigger] states[i]).saved_retraction_count() is None by {
                if i < j {
                    assert(rest[i] == states[i]);
                }
            }
        }
    }

    /// Once an edit is made after undoing past the saved state, no later
    /// sequence of undos, redos and edits reaches a saved state again.
    pub proof fn law_save_point_lost_for_good<F: Fn(&P, &T, bool) -> P>(
        c0: Self,
        operation: Operation<P, T, E, G>,
        states: Seq<Self>,
        transform: F,
    )
        requires
            c0.wf(),
            c0.saved_retraction_count() matches Some(c) && c0.retractions().len() < c,
            states.len() > 0,
            Self::performed(c0, states[0], operation, transform),
            Self::history_steps(states, transform),
        ensures
            forall|i: int| 0 <= i < states.len() ==> !(#[trigger] states[i]).is_saved_spec(),
    {
        Self::law_save_point_lost(c0, states[0], operation, transform);
        Self::law_unsaved_for_good(states, transform);
    }

    /// Undoing from the saved state leaves the canvas unsaved, and redoing
    /// then brings it back to the saved state.
    pub proof fn law_undo_then_redo_returns_to_saved<F: Fn(&P, &T, bool) -> P>(c0: Self, c1: Self, c2: Self, transform: F)
        requires
            c0.wf(),
            c0.is_saved_spec(),
            c0.retractions().len() > 0,
            Self::undone(c0, c1, transform),
            Self::redone(c1, c2, transform),
        ensures
            !c1.is_saved_spec(),
            c2.is_saved_spec(),
    {
        assert(c1.pending_operations().len() > 0);
    }

    /// Right after a new operation there is nothing to redo: `redo` leaves the
    /// canvas as it is.
    pub proof fn law_redo_after_perform_does_nothing<F: Fn(&P, &T, bool) -> P>(
        c0: Self,
        c1: Self,
        c2: Self,
        operation: Operation<P, T, E, G>,
        transform: F,
    )
        requires
            Self::performed(c0, c1, operation, transform),
            Self::redone(c1, c2, transform),
        ensures
            c2.same_as(c1),
    {
    }
}

/// No stroke index of a deletion lies below its first one (always so for
/// other operations).
pub open spec fn deletes_from_first<P, T, E, G>(operation: Operation<P, T, E, G>) -> bool {
    operation matches Operation::DeleteObjects { monotone_stroke_indices: ms, .. } ==> {
        forall|j: int| 0 <= j < ms@.len() ==> ms@[0] <= #[trigger] ms@[j]
    }
}

/// No stroke position that undoing a deletion puts back lies below the first
/// one put back (always so for other retractions).
pub open spec fn reinserts_from_first<P, T, E, G>(retraction: Retraction<P, T, E, G>) -> bool {
    retraction matches Retraction::DeleteObjects { antitone_index_stroke_pairs: sp, .. } ==> {
        let ms = pair_indices(sp@).reverse();
        forall|j: int| 0 <= j < ms.len() ==> ms[0] <= #[trigger] ms[j]
    }
}

impl<P, T, E, G, X> Canvas<P, T, E, G, X> {
    /// Going from `before` to `after` did not raise the first dirty stroke
    /// index, which still lies within the strokes, and every stroke below it
    /// keeps its shape and selection, and is either the very entry it was or
    /// marked dirty.
    pub open spec fn keeps_clean_strokes(before: Self, after: Self) -> bool {
        let n = after.base_dirty_stroke_index_spec();
        &&& n <= before.base_dirty_stroke_index_spec()
        &&& n <= after.stroke_entries().len()
        &&& forall|i: int| 0 <= i < n ==> {
            let (a, b) = (#[trigger] after.stroke_entries()[i], before.stroke_entries()[i]);
            &&& a.value().object.shape == b.value().object.shape
            &&& a.value().is_selected == b.value().is_selected
            &&& a != b ==> a.is_dirty()
        }
    }

    proof fn lemma_applied_keeps_clean_strokes<F: Fn(&P, &T, bool) -> P>(
        c0: Self,
        c1: Self,
        operation: Operation<P, T, E, G>,
        retraction: Retraction<P, T, E, G>,
        transform: F,
    )
        requires
            c0.wf(),
            operation_counts(operation, c0.counts()) is Some,
            Self::applied(c0, c1, operation, retraction, transform),
            deletes_from_first(operation),
        ensures
            Self::keeps_clean_strokes(c0, c1),
    {
        let n = c1.base_dirty_stroke_index_spec();
        match operation {
            Operation::CommitStrokes { .. } => {
                assert forall|i: int| 0 <= i < n implies #[trigger] c1.stroke_entries()[i] == c0.stroke_entries()[i] by {}
            },
            Operation::CommitImages { .. } => {},
            Operation::DeleteObjects { monotone_stroke_indices: ms, .. } => {
                lemma_remove_indices_len(c0.stroke_entries(), ms@);
                if ms@.len() > 0 {
                    assert(ms@[0] + (ms@.len() - 0) <= c0.stroke_entries().len());
                    assert forall|i: int| 0 <= i < n implies #[trigger] c1.stroke_entries()[i] == c0.stroke_entries()[i] by {
                        assert forall|j: int| 0 <= j < ms@.len() implies i < #[trigger] ms@[j] by {
                            assert(ms@[0] <= ms@[j]);
                        }
                        lemma_remove_indices_prefix(c0.stroke_entries(), ms@, i);
                    }
                }
            },
            Operation::RecolorStrokes { .. } => {
                assert forall|i: int| 0 <= i < n implies {
                    let (a, b) = (#[trigger] c1.stroke_entries()[i], c0.stroke_entries()[i]);
                    &&& a.value().object.shape == b.value().object.shape
                    &&& a.value().is_selected == b.value().is_selected
                    &&& a != b ==> a.is_dirty()
                } by {
                    let _ = c1.stroke_entries()[i];
                }
            },
            Operation::TransformObjects { .. } => {
                assert forall|i: int| 0 <= i < n implies {
                    let (a, b) = (#[trigger] c1.stroke_entries()[i], c0.stroke_entries()[i]);
                    &&& a.value().object.shape == b.value().object.shape
                    &&& a.value().is_selected == b.value().is_selected
                    &&& a != b ==> a.is_dirty()
                } by {
                    let _ = c1.stroke_entries()[i];
                }
            },
        }
    }

    proof fn lemma_reverted_keeps_clean_strokes<F: Fn(&P, &T, bool) -> P>(
        c0: Self,
        c1: Self,
        retraction: Retraction<P, T, E, G>,
        operation: Operation<P, T, E, G>,
        transform: F,
    )
        requires
            c0.wf(),
            crate::canvas::retraction_counts(retraction, c0.counts()) is Some,
            Self::reverted(c0, c1, retraction, operation, transform),
            reinserts_from_first(retraction),
        ensures
            Self::keeps_clean_strokes(c0, c1),
    {
        let n = c1.base_dirty_stroke_index_spec();
        match retraction {
            Retraction::CommitStrokes(..) => {
                assert forall|i: int| 0 <= i < n implies #[trigger] c1.stroke_entries()[i] == c0.stroke_entries()[i] by {}
            },
            Retraction::CommitImages(..) => {},
            Retraction::DeleteObjects { antitone_index_stroke_pairs: sp, .. } => {
                lemma_reinsertable(c0.stroke_entries(), sp@);
                let q = fresh_pairs(sp@.reverse());
                let ms = pair_indices(sp@).reverse();
                lemma_insert_pairs_len(c0.stroke_entries(), q);
                if sp@.len() > 0 {
                    assert forall|i: int| 0 <= i < n implies #[trigger] c1.stroke_entries()[i] == c0.stroke_entries()[i] by {
                        assert forall|m: int| 0 <= m < q.len() implies i < #[trigger] q[m].0 by {
                            assert(pair_indices(q)[m] == ms[m]);
                            assert(ms[0] <= ms[m]);
                        }
                        lemma_insert_pairs_prefix(c0.stroke_entries(), q, i);
                    }
                }
            },
            Retraction::RecolorStrokes { .. } => {
                assert forall|i: int| 0 <= i < n implies {
                    let (a, b) = (#[trigger] c1.stroke_entries()[i], c0.stroke_entries()[i]);
                    &&& a.value().object.shape == b.value().object.shape
                    &&& a.value().is_selected == b.value().is_selected
                    &&& a != b ==> a.is_dirty()
                } by {
                    let _ = c1.stroke_entries()[i];
                }
            },
            Retraction::TransformObjects { .. } => {
                assert forall|i: int| 0 <= i < n implies {
                    let (a, b) = (#[trigger] c1.stroke_entries()[i], c0.stroke_entries()[i]);
                    &&& a.value().object.shape == b.value().object.shape
                    &&& a.value().is_selected == b.value().is_selected
                    &&& a != b ==> a.is_dirty()
                } by {
                    let _ = c1.stroke_entries()[i];
                }
            },
        }
    }

    /// Undoing never raises the first dirty stroke index, and below it every
    /// stroke keeps its shape and selection and is either untouched or marked
    /// dirty, so what was drawn of the clean strokes can be kept. (Undoing a
    /// deletion whose first stroke index is not its least can shift strokes
    /// below the new first dirty index, so such a step is left out.)
    pub proof fn law_undo_keeps_clean_strokes<F: Fn(&P, &T, bool) -> P>(c0: Self, c1: Self, transform: F)
        requires
            c0.wf(),
            c0.retractions().len() > 0 ==> reinserts_from_first(c0.retractions().last()),
            Self::undone(c0, c1, transform),
        ensures
            Self::keeps_clean_strokes(c0, c1),
    {
        if c0.retractions().len() > 0 {
            Self::lemma_reverted_keeps_clean_strokes(c0, c1, c0.retractions().last(), c1.pending_operations().last(), transform);
        }
    }

    /// Redoing never raises the first dirty stroke index, and below it every
    /// stroke keeps its shape and selection and is either untouched or marked
    /// dirty. (A deletion whose first stroke index is not its least is left
    /// out, as for `undo`.)
    pub proof fn law_redo_keeps_clean_strokes<F: Fn(&P, &T, bool) -> P>(c0: Self, c1: Self, transform: F)
        requires
            c0.wf(),
            c0.pending_operations().len() > 0 ==> deletes_from_first(c0.pending_operations().last()),
            Self::redone(c0, c1, transform),
        ensures
            Self::keeps_clean_strokes(c0, c1),
    {
        if c0.pending_operations().len() > 0 {
            Self::lemma_applied_keeps_clean_strokes(c0, c1, c0.pending_operations().last(), c1.retractions().last(), transform);
        }
    }

    /// A new operation, too, never raises the first dirty stroke index, and
    /// below it every stroke keeps its shape and selection and is either
    /// untouched or marked dirty (a deletion whose first stroke index is not
    /// its least left out).
    pub proof fn law_perform_keeps_clean_strokes<F: Fn(&P, &T, bool) -> P>(
        c0: Self,
        c1: Self,
        operation: Operation<P, T, E, G>,
        transform: F,
    )
        requires
            c0.wf(),
            operation_counts(operation, c0.counts()) is Some,
            deletes_from_first(operation),
            Self::performed(c0, c1, operation, transform),
        ensures
            Self::keeps_clean_strokes(c0, c1),
    {
        Self::lemma_applied_keeps_clean_strokes(c0, c1, operation, c1.retractions().last(), transform);
    }
}

} // verus!
