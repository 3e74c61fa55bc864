use vstd::prelude::*;

use crate::color::Srgba8;
use crate::watched::Watched;

verus! {

/// Something placed on a canvas. Its placement (position, orientation and
/// dilation) is kept opaque: the canvas only moves it through a caller-supplied
/// transformation function.
pub struct Object<T, P> {
    pub object: T,
    pub placement: P,
    pub is_selected: bool,
}

/// A raster image drawn from one of the canvas's textures.
pub struct Image<E> {
    pub texture_index: usize,
    pub dimensions: E,
}

/// A stroke of ink; its geometry is kept opaque.
pub struct Stroke<G> {
    pub color: Srgba8,
    pub shape: G,
}

/// An edit that can be applied to a canvas (and that `redo` applies).
pub enum Operation<P, T, E, G> {
    CommitStrokes { strokes: Vec<Watched<Object<Stroke<G>, P>>> },
    CommitImages { images: Vec<Watched<Object<Image<E>, P>>> },
    /// Removes the objects at the listed positions, the last position first
    /// (meant to be increasing, but any list that stays in range works).
    DeleteObjects { monotone_image_indices: Vec<usize>, monotone_stroke_indices: Vec<usize> },
    RecolorStrokes { indices: Vec<usize>, new_color: Srgba8 },
    TransformObjects { image_indices: Vec<usize>, stroke_indices: Vec<usize>, transformation: T },
}

/// What `undo` needs to take an applied operation back.
pub enum Retraction<P, T, E, G> {
    CommitStrokes(usize),
    CommitImages(usize),
    DeleteObjects {
        antitone_index_image_pairs: Vec<(usize, Object<Image<E>, P>)>,
        antitone_index_stroke_pairs: Vec<(usize, Object<Stroke<G>, P>)>,
    },
    RecolorStrokes { index_color_pairs: Vec<(usize, Srgba8)>, new_color: Srgba8 },
    TransformObjects { image_indices: Vec<usize>, stroke_indices: Vec<usize>, transformation: T },
}

/// A canvas of images and strokes with an undo/redo history.
pub struct Canvas<P, T, E, G, X> {
    images: Vec<Watched<Object<Image<E>, P>>>,
    strokes: Vec<Watched<Object<Stroke<G>, P>>>,
    // Tracks the smallest indices of an invalidated image/stroke.
    base_dirty_image_index: usize,
    base_dirty_stroke_index: usize,
    retractions: Vec<Retraction<P, T, E, G>>,
    operations: Vec<Operation<P, T, E, G>>,
    textures: Vec<X>,
    retraction_count_at_save: Option<usize>,
}

// ---------------------------------------------------------------------------
// Sequence helpers.

/// Every element is strictly smaller than the next.
pub open spec fn strictly_increasing(s: Seq<usize>) -> bool {
    forall|i: int, j: int| 0 <= i < j < s.len() ==> s[i] < s[j]
}

/// Every element is below `n`.
pub open spec fn all_below(s: Seq<usize>, n: nat) -> bool {
    forall|i: int| 0 <= i < s.len() ==> s[i] < n
}

/// Removing the elements at `indices`, the last position first, takes each
/// from what is left by then: the `j`-th goes after the later ones, so it lies
/// below the length less their number.
pub open spec fn removable(indices: Seq<usize>, n: nat) -> bool {
    forall|j: int| 0 <= j < indices.len() ==> #[trigger] indices[j] + (indices.len() - j) <= n
}

/// Elements taken out of a sequence now `n` long at `indices`, in the order
/// taken, can be put back, the last taken first, each within what is there by
/// then.
pub open spec fn reinsertable(indices: Seq<usize>, n: nat) -> bool {
    forall|j: int| 0 <= j < indices.len() ==> #[trigger] indices[j] + j + 1 <= n + indices.len()
}

/// The sequence after removing the elements at the given positions, the last
/// position first.
pub open spec fn remove_indices<A>(s: Seq<A>, indices: Seq<usize>) -> Seq<A>
    decreases indices.len(),
{
    if indices.len() == 0 {
        s
    } else {
        remove_indices(s.remove(indices.last() as int), indices.drop_last())
    }
}

/// The sequence after inserting each pair's element at the pair's position,
/// the first pair first.
pub open spec fn insert_pairs<A>(s: Seq<A>, pairs: Seq<(usize, A)>) -> Seq<A>
    decreases pairs.len(),
{
    if pairs.len() == 0 {
        s
    } else {
        insert_pairs(s, pairs.drop_last()).insert(pairs.last().0 as int, pairs.last().1)
    }
}

/// The values held by a sequence of watched entries.
pub open spec fn values<A>(s: Seq<Watched<A>>) -> Seq<A> {
    s.map_values(|w: Watched<A>| w.value())
}

// ---------------------------------------------------------------------------
// How each history step changes the numbers of images and strokes.

/// The object counts after `operation` is applied to a canvas with `counts`
/// objects, or `None` where it cannot be applied.
pub open spec fn operation_counts<P, T, E, G>(operation: Operation<P, T, E, G>, counts: (nat, nat)) -> Option<(nat, nat)> {
    match operation {
        Operation::CommitStrokes { strokes } => Some((counts.0, counts.1 + strokes@.len())),
        Operation::CommitImages { images } => Some((counts.0 + images@.len(), counts.1)),
        Operation::DeleteObjects { monotone_image_indices, monotone_stroke_indices } => {
            if removable(monotone_image_indices@, counts.0) && removable(monotone_stroke_indices@, counts.1) {
                Some(((counts.0 - monotone_image_indices@.len()) as nat, (counts.1 - monotone_stroke_indices@.len()) as nat))
            } else {
                None
            }
        },
        Operation::RecolorStrokes { .. } => Some(counts),
        Operation::TransformObjects { .. } => Some(counts),
    }
}

/// The first components of a sequence of pairs.
pub open spec fn pair_indices<A>(pairs: Seq<(usize, A)>) -> Seq<usize> {
    pairs.map_values(|p: (usize, A)| p.0)
}

/// The object counts after `retraction` is undone on a canvas with `counts`
/// objects, or `None` where it cannot be undone.
pub open spec fn retraction_counts<P, T, E, G>(retraction: Retraction<P, T, E, G>, counts: (nat, nat)) -> Option<(nat, nat)> {
    match retraction {
        Retraction::CommitStrokes(length) => if length <= counts.1 {
            Some((counts.0, (counts.1 - length) as nat))
        } else {
            None
        },
        Retraction::CommitImages(length) => if length <= counts.0 {
            Some(((counts.0 - length) as nat, counts.1))
        } else {
            None
        },
        Retraction::DeleteObjects { antitone_index_image_pairs, antitone_index_stroke_pairs } => {
            let images = pair_indices(antitone_index_image_pairs@);
            let strokes = pair_indices(antitone_index_stroke_pairs@);
            if reinsertable(images, counts.0) && reinsertable(strokes, counts.1) {
                Some((counts.0 + images.len(), counts.1 + strokes.len()))
            } else {
                None
            }
        },
        Retraction::RecolorStrokes { .. } => Some(counts),
        Retraction::TransformObjects { .. } => Some(counts),
    }
}

/// Every pending operation, from the top of the stack down, can be applied in turn.
pub open spec fn operations_replayable<P, T, E, G>(operations: Seq<Operation<P, T, E, G>>, counts: (nat, nat)) -> bool
    decreases operations.len(),
{
    if operations.len() == 0 {
        true
    } else {
        match operation_counts(operations.last(), counts) {
            Some(next) => operations_replayable(operations.drop_last(), next),
            None => false,
        }
    }
}

/// Every retraction, from the top of the stack down, can be undone in turn.
pub open spec fn retractions_replayable<P, T, E, G>(retractions: Seq<Retraction<P, T, E, G>>, counts: (nat, nat)) -> bool
    decreases retractions.len(),
{
    if retractions.len() == 0 {
        true
    } else {
        match retraction_counts(retractions.last(), counts) {
            Some(next) => retractions_replayable(retractions.drop_last(), next),
            None => false,
        }
    }
}

impl<P, T, E, G, X> Canvas<P, T, E, G, X> {
    /// The images, with their dirtiness.
    pub closed spec fn image_entries(&self) -> Seq<Watched<Object<Image<E>, P>>> {
        self.images@
    }

    /// The strokes, with their dirtiness.
    pub closed spec fn stroke_entries(&self) -> Seq<Watched<Object<Stroke<G>, P>>> {
        self.strokes@
    }

    /// The operations that `redo` would apply, the next one last.
    pub closed spec fn pending_operations(&self) -> Seq<Operation<P, T, E, G>> {
        self.operations@
    }

    /// The retractions that `undo` would apply, the next one last.
    pub closed spec fn retractions(&self) -> Seq<Retraction<P, T, E, G>> {
        self.retractions@
    }

    pub closed spec fn base_dirty_image_index_spec(&self) -> usize {
        self.base_dirty_image_index
    }

    pub closed spec fn base_dirty_stroke_index_spec(&self) -> usize {
        self.base_dirty_stroke_index
    }

    pub closed spec fn texture_entries(&self) -> Seq<X> {
        self.textures@
    }

    /// The number of retractions the canvas had when it was last saved, if
    /// that state can still be reached.
    pub closed spec fn saved_retraction_count(&self) -> Option<usize> {
        self.retraction_count_at_save
    }

    /// The numbers of images and strokes.
    pub open spec fn counts(&self) -> (nat, nat) {
        (self.image_entries().len(), self.stroke_entries().len())
    }

    /// The canvas is well formed: every step of its history can be replayed in
    /// both directions, and the first dirty stroke index lies within the strokes.
    pub open spec fn wf(&self) -> bool {
        &&& operations_replayable(self.pending_operations(), self.counts())
        &&& retractions_replayable(self.retractions(), self.counts())
        &&& self.base_dirty_stroke_index_spec() <= self.stroke_entries().len()
        &&& self.image_entries().len() <= usize::MAX
        &&& self.stroke_entries().len() <= usize::MAX
        &&& self.retractions().len() <= usize::MAX
    }

    /// An empty canvas with no history, never saved.
    pub fn new() -> (r: Self)
        ensures
            r.wf(),
            r.image_entries() == Seq::<Watched<Object<Image<E>, P>>>::empty(),
            r.stroke_entries() == Seq::<Watched<Object<Stroke<G>, P>>>::empty(),
            r.pending_operations().len() == 0,
            r.retractions().len() == 0,
            r.texture_entries().len() == 0,
            r.saved_retraction_count() is None,
            r.base_dirty_image_index_spec() == 0,
            r.base_dirty_stroke_index_spec() == 0,
    {
        Canvas {
            images: Vec::new(),
            strokes: Vec::new(),
            base_dirty_image_index: 0,
            base_dirty_stroke_index: 0,
            retractions: Vec::new(),
            operations: Vec::new(),
            textures: Vec::new(),
            retraction_count_at_save: None,
        }
    }
}


impl<P, T, E, G, X> Canvas<P, T, E, G, X> {
    /// A canvas read from a file: no history, and saved as it stands.
    pub fn from_file(
        images: Vec<Watched<Object<Image<E>, P>>>,
        strokes: Vec<Watched<Object<Stroke<G>, P>>>,
        textures: Vec<X>,
    ) -> (r: Self)
        ensures
            r.wf(),
            r.image_entries() == images@,
            r.stroke_entries() == strokes@,
            r.texture_entries() == textures@,
            r.pending_operations().len() == 0,
            r.retractions().len() == 0,
            r.saved_retraction_count() == Some(0usize),
            r.base_dirty_image_index_spec() == 0,
            r.base_dirty_stroke_index_spec() == 0,
    {
        proof {
            assert(images@.len() == images.len());
            assert(strokes@.len() == strokes.len());
        }
        Canvas {
            images,
            strokes,
            base_dirty_image_index: 0,
            base_dirty_stroke_index: 0,
            retractions: Vec::new(),
            operations: Vec::new(),
            textures,
            retraction_count_at_save: Some(0),
        }
    }

    /// Marks every object as needing to be prepared again.
    pub fn invalidate(&mut self)
        requires
            old(self).wf(),
        ensures
            final(self).wf(),
            final(self).image_entries() == old(self).image_entries(),
            final(self).stroke_entries() == old(self).stroke_entries(),
            final(self).pending_operations() == old(self).pending_operations(),
            final(self).retractions() == old(self).retractions(),
            final(self).texture_entries() == old(self).texture_entries(),
            final(self).saved_retraction_count() == old(self).saved_retraction_count(),
            final(self).base_dirty_image_index_spec() == 0,
            final(self).base_dirty_stroke_index_spec() == 0,
    {
        self.base_dirty_image_index = 0;
        self.base_dirty_stroke_index = 0;
    }

    pub fn images(&self) -> (r: &[Watched<Object<Image<E>, P>>])
        ensures
            r@ == self.image_entries(),
    {
        self.images.as_slice()
    }

    pub fn strokes(&self) -> (r: &[Watched<Object<Stroke<G>, P>>])
        ensures
            r@ == self.stroke_entries(),
    {
        self.strokes.as_slice()
    }

    pub fn textures(&self) -> (r: &[X])
        ensures
            r@ == self.texture_entries(),
    {
        self.textures.as_slice()
    }

    pub fn base_dirty_image_index(&self) -> (r: usize)
        ensures
            r == self.base_dirty_image_index_spec(),
    {
        self.base_dirty_image_index
    }

    pub fn base_dirty_stroke_index(&self) -> (r: usize)
        ensures
            r == self.base_dirty_stroke_index_spec(),
    {
        self.base_dirty_stroke_index
    }

    pub fn retraction_count_at_save(&self) -> (r: Option<usize>)
        ensures
            r == self.saved_retraction_count(),
    {
        self.retraction_count_at_save
    }

    /// Records that the canvas was just saved.
    pub fn set_retraction_count_at_save(&mut self)
        requires
            old(self).wf(),
        ensures
            final(self).wf(),
            final(self).saved_retraction_count() == Some(old(self).retractions().len() as usize),
            final(self).image_entries() == old(self).image_entries(),
            final(self).stroke_entries() == old(self).stroke_entries(),
            final(self).pending_operations() == old(self).pending_operations(),
            final(self).retractions() == old(self).retractions(),
            final(self).texture_entries() == old(self).texture_entries(),
            final(self).base_dirty_image_index_spec() == old(self).base_dirty_image_index_spec(),
            final(self).base_dirty_stroke_index_spec() == old(self).base_dirty_stroke_index_spec(),
    {
        self.retraction_count_at_save = Some(self.retractions.len());
    }

    /// Whether the canvas is in the state it was last saved in.
    pub open spec fn is_saved_spec(&self) -> bool {
        self.saved_retraction_count() == Some(self.retractions().len() as usize)
    }

    pub fn is_saved(&self) -> (r: bool)
        ensures
            r == self.is_saved_spec(),
    {
        match self.retraction_count_at_save {
            Some(x) => x == self.retractions.len(),
            None => false,
        }
    }

    /// Selects or deselects every object.
    pub fn select_all(&mut self, is_selected: bool)
        requires
            old(self).wf(),
        ensures
            final(self).wf(),
            final(self).image_entries().len() == old(self).image_entries().len(),
            final(self).stroke_entries().len() == old(self).stroke_entries().len(),
            forall|i: int| 0 <= i < final(self).image_entries().len() ==> {
                let (a, b) = (#[trigger] final(self).image_entries()[i], old(self).image_entries()[i]);
                &&& a.value() == (Object { is_selected, ..b.value() })
                &&& a.is_dirty()
            },
            forall|i: int| 0 <= i < final(self).stroke_entries().len() ==> {
                let (a, b) = (#[trigger] final(self).stroke_entries()[i], old(self).stroke_entries()[i]);
                &&& a.value() == (Object { is_selected, ..b.value() })
                &&& a.is_dirty()
            },
            final(self).pending_operations() == old(self).pending_operations(),
            final(self).retractions() == old(self).retractions(),
            final(self).texture_entries() == old(self).texture_entries(),
            final(self).saved_retraction_count() == old(self).saved_retraction_count(),
            final(self).base_dirty_image_index_spec() == old(self).base_dirty_image_index_spec(),
            final(self).base_dirty_stroke_index_spec() == old(self).base_dirty_stroke_index_spec(),
    {
        let mut i: usize = 0;
        while i < self.images.len()
            invariant
                0 <= i <= self.images@.len(),
                self.images@.len() == old(self).images@.len(),
                forall|k: int| 0 <= k < i ==> {
                    let (a, b) = (#[trigger] self.images@[k], old(self).images@[k]);
                    &&& a.value() == (Object { is_selected, ..b.value() })
                    &&& a.is_dirty()
                },
                forall|k: int| i <= k < self.images@.len() ==> #[trigger] self.images@[k] == old(self).images@[k],
                self.strokes == old(self).strokes,
                self.operations == old(self).operations,
                self.retractions == old(self).retractions,
                self.textures == old(self).textures,
                self.retraction_count_at_save == old(self).retraction_count_at_save,
                self.base_dirty_image_index == old(self).base_dirty_image_index,
                self.base_dirty_stroke_index == old(self).base_dirty_stroke_index,
            decreases self.images@.len() - i,
        {
            let entry = &mut self.images[i];
            entry.as_mut().is_selected = is_selected;
            i += 1;
        }
        let mut i: usize = 0;
        while i < self.strokes.len()
            invariant
                0 <= i <= self.strokes@.len(),
                self.strokes@.len() == old(self).strokes@.len(),
                forall|k: int| 0 <= k < i ==> {
                    let (a, b) = (#[trigger] self.strokes@[k], old(self).strokes@[k]);
                    &&& a.value() == (Object { is_selected, ..b.value() })
                    &&& a.is_dirty()
                },
                forall|k: int| i <= k < self.strokes@.len() ==> #[trigger] self.strokes@[k] == old(self).strokes@[k],
                forall|k: int| 0 <= k < self.images@.len() ==> {
                    let (a, b) = (#[trigger] self.images@[k], old(self).images@[k]);
                    &&& a.value() == (Object { is_selected, ..b.value() })
                    &&& a.is_dirty()
                },
                self.images@.len() == old(self).images@.len(),
                self.operations == old(self).operations,
                self.retractions == old(self).retractions,
                self.textures == old(self).textures,
                self.retraction_count_at_save == old(self).retraction_count_at_save,
                self.base_dirty_image_index == old(self).base_dirty_image_index,
                self.base_dirty_stroke_index == old(self).base_dirty_stroke_index,
            decreases self.strokes@.len() - i,
        {
            let entry = &mut self.strokes[i];
            entry.as_mut().is_selected = is_selected;
            i += 1;
        }
    }
}


/// Whether an object is selected after a selection gesture that does or does
/// not `hit` it: with `should_aggregate` a hit toggles it, else it is selected
/// exactly when hit.
pub open spec fn selection_after(was_selected: bool, hit: bool, should_aggregate: bool) -> bool {
    if should_aggregate {
        was_selected != hit
    } else {
        hit
    }
}

impl<P, T, E, G, X> Canvas<P, T, E, G, X> {
    /// Updates the selection after a selection gesture, given which images and
    /// which strokes it hit. Every image is rewritten; a stroke only when it
    /// was hit or loses its selection.
    pub fn select_hits(&mut self, image_hits: &Vec<bool>, stroke_hits: &Vec<bool>, should_aggregate: bool)
        requires
            old(self).wf(),
            image_hits@.len() == old(self).image_entries().len(),
            stroke_hits@.len() == old(self).stroke_entries().len(),
        ensures
            final(self).wf(),
            final(self).image_entries().len() == old(self).image_entries().len(),
            final(self).stroke_entries().len() == old(self).stroke_entries().len(),
            forall|i: int| 0 <= i < final(self).image_entries().len() ==> {
                let (a, b) = (#[trigger] final(self).image_entries()[i], old(self).image_entries()[i]);
                &&& a.value() == (Object {
                    is_selected: selection_after(b.value().is_selected, image_hits@[i], should_aggregate),
                    ..b.value()
                })
                &&& a.is_dirty()
            },
            forall|i: int| 0 <= i < final(self).stroke_entries().len() ==> {
                let (a, b) = (#[trigger] final(self).stroke_entries()[i], old(self).stroke_entries()[i]);
                &&& a.value() == (Object {
                    is_selected: selection_after(b.value().is_selected, stroke_hits@[i], should_aggregate),
                    ..b.value()
                })
                &&& a.is_dirty() == (b.is_dirty() || stroke_hits@[i] || (!should_aggregate && b.value().is_selected))
            },
            final(self).pending_operations() == old(self).pending_operations(),
            final(self).retractions() == old(self).retractions(),
            final(self).texture_entries() == old(self).texture_entries(),
            final(self).saved_retraction_count() == old(self).saved_retraction_count(),
            final(self).base_dirty_image_index_spec() == old(self).base_dirty_image_index_spec(),
            final(self).base_dirty_stroke_index_spec() == old(self).base_dirty_stroke_index_spec(),
    {
        let mut i: usize = 0;
        while i < self.images.len()
            invariant
                0 <= i <= self.images@.len(),
                self.images@.len() == old(self).images@.len(),
                image_hits@.len() == self.images@.len(),
                forall|k: int| 0 <= k < i ==> {
                    let (a, b) = (#[trigger] self.images@[k], old(self).images@[k]);
                    &&& a.value() == (Object {
                        is_selected: selection_after(b.value().is_selected, image_hits@[k], should_aggregate),
                        ..b.value()
                    })
                    &&& a.is_dirty()
                },
                forall|k: int| i <= k < self.images@.len() ==> #[trigger] self.images@[k] == old(self).images@[k],
                self.strokes == old(self).strokes,
                self.operations == old(self).operations,
                self.retractions == old(self).retractions,
                self.textures == old(self).textures,
                self.retraction_count_at_save == old(self).retraction_count_at_save,
                self.base_dirty_image_index == old(self).base_dirty_image_index,
                self.base_dirty_stroke_index == old(self).base_dirty_stroke_index,
            decreases self.images@.len() - i,
        {
            let hit = image_hits[i];
            let entry = &mut self.images[i];
            let object = entry.as_mut();
            if should_aggregate {
                object.is_selected = object.is_selected != hit;
            } else {
                object.is_selected = hit;
            }
            i += 1;
        }
        let mut i: usize = 0;
        while i < self.strokes.len()
            invariant
                0 <= i <= self.strokes@.len(),
                self.strokes@.len() == old(self).strokes@.len(),
                stroke_hits@.len() == self.strokes@.len(),
                forall|k: int| 0 <= k < i ==> {
                    let (a, b) = (#[trigger] self.strokes@[k], old(self).strokes@[k]);
                    &&& a.value() == (Object {
                        is_selected: selection_after(b.value().is_selected, stroke_hits@[k], should_aggregate),
                        ..b.value()
                    })
                    &&& a.is_dirty() == (b.is_dirty() || stroke_hits@[k] || (!should_aggregate && b.value().is_selected))
                },
                forall|k: int| i <= k < self.strokes@.len() ==> #[trigger] self.strokes@[k] == old(self).strokes@[k],
                forall|k: int| 0 <= k < self.images@.len() ==> {
                    let (a, b) = (#[trigger] self.images@[k], old(self).images@[k]);
                    &&& a.value() == (Object {
                        is_selected: selection_after(b.value().is_selected, image_hits@[k], should_aggregate),
                        ..b.value()
                    })
                    &&& a.is_dirty()
                },
                self.images@.len() == old(self).images@.len(),
                self.operations == old(self).operations,
                self.retractions == old(self).retractions,
                self.textures == old(self).textures,
                self.retraction_count_at_save == old(self).retraction_count_at_save,
                self.base_dirty_image_index == old(self).base_dirty_image_index,
                self.base_dirty_stroke_index == old(self).base_dirty_stroke_index,
            decreases self.strokes@.len() - i,
        {
            let hit = stroke_hits[i];
            let was_selected = self.strokes[i].as_ref().is_selected;
            if hit {
                let entry = &mut self.strokes[i];
                entry.as_mut().is_selected = !should_aggregate || !was_selected;
            } else if !should_aggregate && was_selected {
                let entry = &mut self.strokes[i];
                entry.as_mut().is_selected = false;
            }
            i += 1;
        }
    }
}

// ---------------------------------------------------------------------------
// Steps shared by `redo` and `undo`.

/// How many times `k` occurs in `s`.
pub open spec fn occurrences(s: Seq<usize>, k: usize) -> nat
    decreases s.len(),
{
    if s.len() == 0 {
        0
    } else {
        occurrences(s.drop_last(), k) + if s.last() == k { 1nat } else { 0nat }
    }
}

/// `after` is what `times` successive calls of `transform` (with the
/// transformation `t`, in the direction `inverse`) can make of `before`.
pub open spec fn transformed<P, T, F: Fn(&P, &T, bool) -> P>(
    transform: F,
    t: T,
    inverse: bool,
    before: P,
    after: P,
    times: nat,
) -> bool
    decreases times,
{
    if times == 0 {
        after == before
    } else {
        exists|middle: P|
            transformed(transform, t, inverse, before, middle, (times - 1) as nat)
                && #[trigger] call_ensures(transform, (&middle, &t, inverse), after)
    }
}

/// `after` results from `before` by transforming the placement of the object at
/// each in-range position of `indices`, once per occurrence; other objects are
/// untouched, and touched ones are marked dirty.
pub open spec fn entries_transformed<O, P, T, F: Fn(&P, &T, bool) -> P>(
    before: Seq<Watched<Object<O, P>>>,
    after: Seq<Watched<Object<O, P>>>,
    indices: Seq<usize>,
    t: T,
    inverse: bool,
    transform: F,
) -> bool {
    &&& after.len() == before.len()
    &&& forall|k: int| 0 <= k < before.len() ==> {
        let times = occurrences(indices, k as usize);
        let (a, b) = (#[trigger] after[k], before[k]);
        &&& a.value().object == b.value().object
        &&& a.value().is_selected == b.value().is_selected
        &&& transformed(transform, t, inverse, b.value().placement, a.value().placement, times)
        &&& times > 0 ==> a.is_dirty()
        &&& times == 0 ==> a == b
    }
}

proof fn lemma_occurrences_push(s: Seq<usize>, x: usize, k: usize)
    ensures
        occurrences(s.push(x), k) == occurrences(s, k) + if x == k { 1nat } else { 0nat },
{
    assert(s.push(x).drop_last() =~= s);
}

proof fn lemma_transformed_step<P, T, F: Fn(&P, &T, bool) -> P>(
    transform: F,
    t: T,
    inverse: bool,
    before: P,
    middle: P,
    after: P,
    times: nat,
)
    requires
        transformed(transform, t, inverse, before, middle, times),
        call_ensures(transform, (&middle, &t, inverse), after),
    ensures
        transformed(transform, t, inverse, before, after, times + 1),
{
    assert(transformed(transform, t, inverse, before, middle, ((times + 1) - 1) as nat));
}

fn transform_entries<O, P, T, F: Fn(&P, &T, bool) -> P>(
    entries: &mut Vec<Watched<Object<O, P>>>,
    indices: &Vec<usize>,
    t: &T,
    inverse: bool,
    transform: &F,
)
    requires
        forall|p: &P, u: &T, b: bool| call_requires(*transform, (p, u, b)),
    ensures
        entries_transformed(old(entries)@, final(entries)@, indices@, *t, inverse, *transform),
{
    let mut j: usize = 0;
    while j < indices.len()
        invariant
            0 <= j <= indices@.len(),
            forall|p: &P, u: &T, b: bool| call_requires(*transform, (p, u, b)),
            entries_transformed(old(entries)@, entries@, indices@.take(j as int), *t, inverse, *transform),
        decreases indices@.len() - j,
    {
        let index = indices[j];
        proof {
            assert(indices@.take(j + 1) =~= indices@.take(j as int).push(index));
            assert forall|k: usize| true implies occurrences(indices@.take(j + 1), k) == occurrences(indices@.take(j as int), k)
                + if index == k { 1nat } else { 0nat } by {
                lemma_occurrences_push(indices@.take(j as int), index, k);
            }
        }
        if index < entries.len() {
            let ghost before = entries@;
            let entry = &mut entries[index];
            let object = entry.as_mut();
            let placement = transform(&object.placement, t, inverse);
            proof {
                lemma_transformed_step(*transform, *t, inverse, old(entries)@[index as int].value().placement,
                    before[index as int].value().placement, placement, occurrences(indices@.take(j as int), index));
            }
            object.placement = placement;
        }
        j += 1;
    }
    assert(indices@.take(indices@.len() as int) =~= indices@);
}


/// The (position, element) pairs that deleting the elements of `s` at
/// `indices`, the last one first, takes out, in the order taken.
pub open spec fn deleted_pairs<A>(s: Seq<A>, indices: Seq<usize>) -> Seq<(usize, A)>
    decreases indices.len(),
{
    if indices.len() == 0 {
        Seq::empty()
    } else {
        let x = indices.last();
        seq![(x, s[x as int])] + deleted_pairs(s.remove(x as int), indices.drop_last())
    }
}

/// The positions that a deletion records are its indices, the last one first.
pub(crate) proof fn lemma_deleted_pair_indices<A>(s: Seq<A>, indices: Seq<usize>)
    ensures
        pair_indices(deleted_pairs(s, indices)) == indices.reverse(),
    decreases indices.len(),
{
    if indices.len() > 0 {
        let x = indices.last();
        let rest = indices.drop_last();
        let tail = deleted_pairs(s.remove(x as int), rest);
        lemma_deleted_pair_indices(s.remove(x as int), rest);
        let all = deleted_pairs(s, indices);
        assert(all == seq![(x, s[x as int])] + tail);
        assert(all.len() == indices.len()) by {
            assert(pair_indices(tail).len() == rest.len());
        }
        assert forall|m: int| 0 <= m < indices.len() implies #[trigger] pair_indices(all)[m] == indices.reverse()[m] by {
            if m > 0 {
                assert(all[m] == tail[m - 1]);
                assert(pair_indices(tail)[m - 1] == rest.reverse()[m - 1]);
            }
        }
        assert(pair_indices(all) =~= indices.reverse());
    }
}

/// What removing at `indices` takes out of `n` elements can be put back.
pub(crate) proof fn lemma_removed_reinsertable(indices: Seq<usize>, n: nat)
    requires
        removable(indices, n),
    ensures
        indices.len() <= n,
        reinsertable(indices.reverse(), (n - indices.len()) as nat),
{
    let k = indices.len();
    if k > 0 {
        assert(indices[0] + (k - 0) <= n);
    }
    assert forall|j: int| 0 <= j < k implies #[trigger] indices.reverse()[j] + j + 1 <= (n - k) + k by {
        assert(indices[k - 1 - j] + (k - (k - 1 - j)) <= n);
    }
}

/// What putting back at `indices` restores can be removed again.
pub(crate) proof fn lemma_reinserted_removable(indices: Seq<usize>, n: nat)
    requires
        reinsertable(indices, n),
    ensures
        removable(indices.reverse(), n + indices.len()),
{
    let k = indices.len();
    assert forall|j: int| 0 <= j < k implies #[trigger] indices.reverse()[j] + (k - j) <= n + k by {
        assert(indices[k - 1 - j] + (k - 1 - j) + 1 <= n + k);
    }
}

/// Strictly increasing positions below `n` can be removed, the last one first.
pub(crate) proof fn lemma_increasing_removable(s: Seq<usize>, n: nat)
    requires
        strictly_increasing(s),
        all_below(s, n),
    ensures
        removable(s, n),
{
    assert forall|j: int| 0 <= j < s.len() implies #[trigger] s[j] + (s.len() - j) <= n by {
        lemma_increasing_gap(s, j, s.len() - 1);
    }
}

/// The entries `insert_pairs` makes of `pairs`: freshly wrapped, hence dirty.
pub open spec fn fresh_pairs<A>(pairs: Seq<(usize, A)>) -> Seq<(usize, Watched<A>)> {
    pairs.map_values(|p: (usize, A)| (p.0, Watched::spec_new(p.1)))
}

/// The `b`-th element of a strictly increasing sequence exceeds the `a`-th by at least `b - a`.
proof fn lemma_increasing_gap(s: Seq<usize>, a: int, b: int)
    requires
        strictly_increasing(s),
        0 <= a <= b < s.len(),
    ensures
        s[b] >= s[a] + (b - a),
    decreases b - a,
{
    if a < b {
        lemma_increasing_gap(s, a, b - 1);
    }
}

/// Removes the entries at the `monotone` positions, the last one first, and
/// returns what was removed in that order.
fn remove_entries<A>(entries: &mut Vec<Watched<A>>, monotone: &Vec<usize>) -> (pairs: Vec<(usize, A)>)
    requires
        removable(monotone@, old(entries)@.len()),
    ensures
        final(entries)@ == remove_indices(old(entries)@, monotone@),
        final(entries)@.len() == old(entries)@.len() - monotone@.len(),
        pairs@ == deleted_pairs(values(old(entries)@), monotone@),
{
    let ghost initial = entries@;
    let ghost n = monotone@.len();
    let mut pairs: Vec<(usize, A)> = Vec::with_capacity(monotone.len());
    let mut j: usize = monotone.len();
    assert(monotone@.take(n as int) =~= monotone@);
    assert(pairs@ + deleted_pairs(values(initial), monotone@) =~= deleted_pairs(values(initial), monotone@));
    while j > 0
        invariant
            0 <= j <= n,
            n == monotone@.len(),
            removable(monotone@, initial.len()),
            initial == old(entries)@,
            entries@.len() == initial.len() - (n - j),
            remove_indices(entries@, monotone@.take(j as int)) == remove_indices(initial, monotone@),
            pairs@ + deleted_pairs(values(entries@), monotone@.take(j as int)) == deleted_pairs(values(initial), monotone@),
        decreases j,
    {
        j -= 1;
        let index = monotone[j];
        let ghost before = entries@;
        let ghost before_pairs = pairs@;
        proof {
            assert(monotone@[j as int] + (n - j) <= initial.len());
            assert(monotone@.take(j + 1).drop_last() =~= monotone@.take(j as int));
            assert(monotone@.take(j + 1).last() == index);
        }
        let entry = entries.remove(index);
        pairs.push((index, entry.take()));
        proof {
            assert(values(entries@) =~= values(before).remove(index as int));
            let tail = deleted_pairs(values(entries@), monotone@.take(j as int));
            assert(deleted_pairs(values(before), monotone@.take(j + 1)) == seq![(index, values(before)[index as int])] + tail);
            assert(pairs@ + tail =~= before_pairs + (seq![(index, values(before)[index as int])] + tail));
        }
    }
    assert(monotone@.take(0) =~= Seq::<usize>::empty());
    assert(pairs@ + Seq::<(usize, A)>::empty() =~= pairs@);
    pairs
}

/// Puts back the entries that `remove_entries` took out, the last one taken
/// first, and returns their positions in that order.
fn reinsert_entries<A>(entries: &mut Vec<Watched<A>>, antitone: Vec<(usize, A)>) -> (monotone: Vec<usize>)
    requires
        reinsertable(pair_indices(antitone@), old(entries)@.len()),
    ensures
        final(entries)@ == insert_pairs(old(entries)@, fresh_pairs(antitone@.reverse())),
        final(entries)@.len() == old(entries)@.len() + antitone@.len(),
        monotone@ == pair_indices(antitone@).reverse(),
{
    let ghost initial = entries@;
    let ghost all = antitone@;
    let ghost n = antitone@.len();
    let mut antitone = antitone;
    let mut monotone: Vec<usize> = Vec::with_capacity(antitone.len());
    while antitone.len() > 0
        invariant
            n == all.len(),
            antitone@.len() <= n,
            antitone@ == all.take(antitone@.len() as int),
            reinsertable(pair_indices(all), initial.len()),
            entries@ == insert_pairs(initial, fresh_pairs(all.reverse()).take(n - antitone@.len())),
            entries@.len() == initial.len() + (n - antitone@.len()),
            monotone@ == pair_indices(all).reverse().take(n - antitone@.len()),
        decreases antitone@.len(),
    {
        let ghost m = n - antitone@.len();
        let ghost before = antitone@;
        let (index, value) = antitone.pop().unwrap();
        proof {
            let r = antitone@.len() as int;
            assert(all[r] == before.last());
            assert(pair_indices(all)[r] == index);
            assert(pair_indices(all)[r] + r + 1 <= initial.len() + n);
            assert(index <= entries@.len());
            assert(antitone@ =~= all.take(r));
            let fresh = fresh_pairs(all.reverse());
            assert(fresh.take(m + 1).drop_last() =~= fresh.take(m));
            assert(fresh.take(m + 1).last() == (index, Watched::spec_new(value)));
        }
        entries.insert(index, Watched::new(value));
        monotone.push(index);
        proof {
            assert(monotone@ =~= pair_indices(all).reverse().take(n - antitone@.len()));
        }
    }
    proof {
        assert(fresh_pairs(all.reverse()).take(n as int) =~= fresh_pairs(all.reverse()));
        assert(pair_indices(all).reverse().take(n as int) =~= pair_indices(all).reverse());
    }
    monotone
}


/// The stroke recoloured.
pub open spec fn recolored<G, P>(stroke: Object<Stroke<G>, P>, color: Srgba8) -> Object<Stroke<G>, P> {
    Object { object: Stroke { color, ..stroke.object }, ..stroke }
}

/// The (position, previous colour) pairs that recolouring the strokes `s` at
/// `indices`, in order, records; out-of-range positions are skipped, and a
/// position met again records the colour it was already given.
pub open spec fn recolor_pairs<G, P>(s: Seq<Object<Stroke<G>, P>>, indices: Seq<usize>, color: Srgba8) -> Seq<(usize, Srgba8)>
    decreases indices.len(),
{
    if indices.len() == 0 {
        Seq::empty()
    } else {
        let previous = recolor_pairs(s, indices.drop_last(), color);
        let i = indices.last();
        if i < s.len() {
            previous.push((i, if indices.drop_last().contains(i) { color } else { s[i as int].object.color }))
        } else {
            previous
        }
    }
}

/// The colour that the last pair for position `k` holds, if any pair does.
pub open spec fn restored_color(pairs: Seq<(usize, Srgba8)>, k: usize) -> Option<Srgba8>
    decreases pairs.len(),
{
    if pairs.len() == 0 {
        None
    } else if pairs.last().0 == k {
        Some(pairs.last().1)
    } else {
        restored_color(pairs.drop_last(), k)
    }
}

/// Gives the strokes at the in-range `indices` the colour `color`, and returns
/// the colours they had, in order.
fn recolor_entries<G, P>(entries: &mut Vec<Watched<Object<Stroke<G>, P>>>, indices: &Vec<usize>, color: Srgba8) -> (pairs: Vec<(usize, Srgba8)>)
    ensures
        final(entries)@.len() == old(entries)@.len(),
        forall|k: int| 0 <= k < old(entries)@.len() ==> {
            let (a, b) = (#[trigger] final(entries)@[k], old(entries)@[k]);
            if indices@.contains(k as usize) {
                a.value() == recolored(b.value(), color) && a.is_dirty()
            } else {
                a == b
            }
        },
        pairs@ == recolor_pairs(values(old(entries)@), indices@, color),
{
    let mut pairs: Vec<(usize, Srgba8)> = Vec::with_capacity(indices.len());
    let mut j: usize = 0;
    while j < indices.len()
        invariant
            0 <= j <= indices@.len(),
            entries@.len() == old(entries)@.len(),
            forall|k: int| 0 <= k < old(entries)@.len() ==> {
                let (a, b) = (#[trigger] entries@[k], old(entries)@[k]);
                if indices@.take(j as int).contains(k as usize) {
                    a.value() == recolored(b.value(), color) && a.is_dirty()
                } else {
                    a == b
                }
            },
            pairs@ == recolor_pairs(values(old(entries)@), indices@.take(j as int), color),
        decreases indices@.len() - j,
    {
        let index = indices[j];
        proof {
            let t = indices@.take(j + 1);
            assert(t.drop_last() =~= indices@.take(j as int));
            assert(t.last() == index);
            assert forall|k: usize| #[trigger] t.contains(k) <==> indices@.take(j as int).contains(k) || k == index by {
                if t.contains(k) && k != index {
                    let w = choose|w: int| 0 <= w < t.len() && t[w] == k;
                    assert(indices@.take(j as int)[w] == k);
                }
                if indices@.take(j as int).contains(k) {
                    let w = choose|w: int| 0 <= w < j && indices@.take(j as int)[w] == k;
                    assert(t[w] == k);
                }
                if k == index {
                    assert(t[j as int] == k);
                }
            }
        }
        if index < entries.len() {
            let entry = &mut entries[index];
            let object = entry.as_mut();
            pairs.push((index, object.object.color));
            object.object.color = color;
        }
        j += 1;
    }
    assert(indices@.take(indices@.len() as int) =~= indices@);
    pairs
}

/// Gives each in-range position of `pairs` its colour, the first pair first,
/// and returns the positions in order.
fn restore_entry_colors<G, P>(entries: &mut Vec<Watched<Object<Stroke<G>, P>>>, pairs: Vec<(usize, Srgba8)>) -> (indices: Vec<usize>)
    ensures
        final(entries)@.len() == old(entries)@.len(),
        forall|k: int| 0 <= k < old(entries)@.len() ==> {
            let (a, b) = (#[trigger] final(entries)@[k], old(entries)@[k]);
            match restored_color(pairs@, k as usize) {
                Some(c) => a.value() == recolored(b.value(), c) && a.is_dirty(),
                None => a == b,
            }
        },
        indices@ == pair_indices(pairs@),
{
    let mut indices: Vec<usize> = Vec::with_capacity(pairs.len());
    let mut j: usize = 0;
    while j < pairs.len()
        invariant
            0 <= j <= pairs@.len(),
            entries@.len() == old(entries)@.len(),
            forall|k: int| 0 <= k < old(entries)@.len() ==> {
                let (a, b) = (#[trigger] entries@[k], old(entries)@[k]);
                match restored_color(pairs@.take(j as int), k as usize) {
                    Some(c) => a.value() == recolored(b.value(), c) && a.is_dirty(),
                    None => a == b,
                }
            },
            indices@ == pair_indices(pairs@.take(j as int)),
        decreases pairs@.len() - j,
    {
        let (index, old_color) = pairs[j];
        proof {
            let t = pairs@.take(j + 1);
            assert(t.drop_last() =~= pairs@.take(j as int));
            assert(t.last() == (index, old_color));
        }
        if index < entries.len() {
            let entry = &mut entries[index];
            entry.as_mut().object.color = old_color;
        }
        indices.push(index);
        j += 1;
        proof {
            assert(indices@ =~= pair_indices(pairs@.take(j as int)));
        }
    }
    assert(pairs@.take(pairs@.len() as int) =~= pairs@);
    indices
}


/// The smaller of two indices.
pub open spec fn min_index(a: usize, b: usize) -> usize {
    if a <= b { a } else { b }
}

impl<P, T, E, G, X> Canvas<P, T, E, G, X> {
    /// `after` holds the objects and first dirty indices that applying
    /// `operation` to `before` gives, and `retraction` is what undoes it.
    pub open spec fn applied<F: Fn(&P, &T, bool) -> P>(
        before: Self,
        after: Self,
        operation: Operation<P, T, E, G>,
        retraction: Retraction<P, T, E, G>,
        transform: F,
    ) -> bool {
        match operation {
            Operation::CommitStrokes { strokes } => {
                &&& after.stroke_entries() == before.stroke_entries() + strokes@
                &&& after.image_entries() == before.image_entries()
                &&& retraction matches Retraction::CommitStrokes(n) && n == strokes@.len()
                &&& after.base_dirty_image_index_spec() == before.base_dirty_image_index_spec()
                &&& after.base_dirty_stroke_index_spec() == before.base_dirty_stroke_index_spec()
            },
            Operation::CommitImages { images } => {
                &&& after.image_entries() == before.image_entries() + images@
                &&& after.stroke_entries() == before.stroke_entries()
                &&& retraction matches Retraction::CommitImages(n) && n == images@.len()
                &&& after.base_dirty_image_index_spec() == before.base_dirty_image_index_spec()
                &&& after.base_dirty_stroke_index_spec() == before.base_dirty_stroke_index_spec()
            },
            Operation::DeleteObjects { monotone_image_indices: mi, monotone_stroke_indices: ms } => {
                &&& after.image_entries() == remove_indices(before.image_entries(), mi@)
                &&& after.stroke_entries() == remove_indices(before.stroke_entries(), ms@)
                &&& retraction matches Retraction::DeleteObjects { antitone_index_image_pairs: ip, antitone_index_stroke_pairs: sp }
                &&& ip@ == deleted_pairs(values(before.image_entries()), mi@)
                &&& sp@ == deleted_pairs(values(before.stroke_entries()), ms@)
                &&& after.base_dirty_image_index_spec() == if mi@.len() > 0 {
                    min_index(before.base_dirty_image_index_spec(), mi@[0])
                } else {
                    before.base_dirty_image_index_spec()
                }
                &&& after.base_dirty_stroke_index_spec() == if ms@.len() > 0 {
                    min_index(before.base_dirty_stroke_index_spec(), ms@[0])
                } else {
                    before.base_dirty_stroke_index_spec()
                }
            },
            Operation::RecolorStrokes { indices, new_color } => {
                &&& after.image_entries() == before.image_entries()
                &&& after.stroke_entries().len() == before.stroke_entries().len()
                &&& forall|k: int| 0 <= k < before.stroke_entries().len() ==> {
                    let (a, b) = (#[trigger] after.stroke_entries()[k], before.stroke_entries()[k]);
                    if indices@.contains(k as usize) {
                        a.value() == recolored(b.value(), new_color) && a.is_dirty()
                    } else {
                        a == b
                    }
                }
                &&& retraction matches Retraction::RecolorStrokes { index_color_pairs: pairs, new_color: c }
                &&& pairs@ == recolor_pairs(values(before.stroke_entries()), indices@, new_color)
                &&& c == new_color
                &&& after.base_dirty_image_index_spec() == before.base_dirty_image_index_spec()
                &&& after.base_dirty_stroke_index_spec() == before.base_dirty_stroke_index_spec()
            },
            Operation::TransformObjects { image_indices, stroke_indices, transformation } => {
                &&& entries_transformed(before.image_entries(), after.image_entries(), image_indices@, transformation, false, transform)
                &&& entries_transformed(before.stroke_entries(), after.stroke_entries(), stroke_indices@, transformation, false, transform)
                &&& retraction matches Retraction::TransformObjects { image_indices: a, stroke_indices: b, transformation: t }
                &&& a@ == image_indices@
                &&& b@ == stroke_indices@
                &&& t == transformation
                &&& after.base_dirty_image_index_spec() == before.base_dirty_image_index_spec()
                &&& after.base_dirty_stroke_index_spec() == before.base_dirty_stroke_index_spec()
            },
        }
    }

    /// Applies an operation to the objects and returns what undoes it.
    fn apply<F: Fn(&P, &T, bool) -> P>(&mut self, operation: Operation<P, T, E, G>, transform: &F) -> (retraction: Retraction<P, T, E, G>)
        requires
            old(self).base_dirty_stroke_index_spec() <= old(self).stroke_entries().len(),
            operation_counts(operation, old(self).counts()) is Some,
            forall|p: &P, u: &T, b: bool| call_requires(*transform, (p, u, b)),
        ensures
            Self::applied(*old(self), *final(self), operation, retraction, *transform),
            Some(final(self).counts()) == operation_counts(operation, old(self).counts()),
            retraction_counts(retraction, final(self).counts()) == Some(old(self).counts()),
            final(self).base_dirty_stroke_index_spec() <= final(self).stroke_entries().len(),
            final(self).pending_operations() == old(self).pending_operations(),
            final(self).retractions() == old(self).retractions(),
            final(self).texture_entries() == old(self).texture_entries(),
            final(self).saved_retraction_count() == old(self).saved_retraction_count(),
    {
        match operation {
            Operation::CommitStrokes { strokes } => {
                let mut strokes = strokes;
                let length = strokes.len();
                self.strokes.append(&mut strokes);
                Retraction::CommitStrokes(length)
            },
            Operation::CommitImages { images } => {
                let mut images = images;
                let length = images.len();
                self.images.append(&mut images);
                Retraction::CommitImages(length)
            },
            Operation::DeleteObjects { monotone_image_indices, monotone_stroke_indices } => {
                let ghost old_images = self.images@;
                let ghost old_strokes = self.strokes@;
                let antitone_index_image_pairs = remove_entries(&mut self.images, &monotone_image_indices);
                if monotone_image_indices.len() > 0 {
                    let first = monotone_image_indices[0];
                    if first < self.base_dirty_image_index {
                        self.base_dirty_image_index = first;
                    }
                }
                let antitone_index_stroke_pairs = remove_entries(&mut self.strokes, &monotone_stroke_indices);
                if monotone_stroke_indices.len() > 0 {
                    let first = monotone_stroke_indices[0];
                    proof {
                        assert(monotone_stroke_indices@[0] + (monotone_stroke_indices@.len() - 0) <= old_strokes.len());
                    }
                    if first < self.base_dirty_stroke_index {
                        self.base_dirty_stroke_index = first;
                    }
                }
                proof {
                    lemma_deleted_pair_indices(values(old_images), monotone_image_indices@);
                    lemma_deleted_pair_indices(values(old_strokes), monotone_stroke_indices@);
                    lemma_removed_reinsertable(monotone_image_indices@, old_images.len());
                    lemma_removed_reinsertable(monotone_stroke_indices@, old_strokes.len());
                }
                Retraction::DeleteObjects { antitone_index_image_pairs, antitone_index_stroke_pairs }
            },
            Operation::RecolorStrokes { indices, new_color } => {
                let index_color_pairs = recolor_entries(&mut self.strokes, &indices, new_color);
                Retraction::RecolorStrokes { index_color_pairs, new_color }
            },
            Operation::TransformObjects { image_indices, stroke_indices, transformation } => {
                transform_entries(&mut self.images, &image_indices, &transformation, false, transform);
                transform_entries(&mut self.strokes, &stroke_indices, &transformation, false, transform);
                Retraction::TransformObjects { image_indices, stroke_indices, transformation }
            },
        }
    }
}


impl<P, T, E, G, X> Canvas<P, T, E, G, X> {
    /// `after` holds the objects and first dirty indices that undoing
    /// `retraction` on `before` gives, and `operation` is what redoes it.
    pub open spec fn reverted<F: Fn(&P, &T, bool) -> P>(
        before: Self,
        after: Self,
        retraction: Retraction<P, T, E, G>,
        operation: Operation<P, T, E, G>,
        transform: F,
    ) -> bool {
        match retraction {
            Retraction::CommitStrokes(length) => {
                let n = before.stroke_entries().len();
                &&& after.stroke_entries() == before.stroke_entries().subrange(0, n - length)
                &&& after.image_entries() == before.image_entries()
                &&& operation matches Operation::CommitStrokes { strokes }
                &&& strokes@ == before.stroke_entries().subrange(n - length, n as int).reverse()
                &&& after.base_dirty_image_index_spec() == before.base_dirty_image_index_spec()
                &&& after.base_dirty_stroke_index_spec() == min_index(before.base_dirty_stroke_index_spec(), (n - length) as usize)
            },
            Retraction::CommitImages(length) => {
                let n = before.image_entries().len();
                &&& after.image_entries() == before.image_entries().subrange(0, n - length)
                &&& after.stroke_entries() == before.stroke_entries()
                &&& operation matches Operation::CommitImages { images }
                &&& images@ == before.image_entries().subrange(n - length, n as int).reverse()
                &&& after.base_dirty_image_index_spec() == before.base_dirty_image_index_spec()
                &&& after.base_dirty_stroke_index_spec() == before.base_dirty_stroke_index_spec()
            },
            Retraction::DeleteObjects { antitone_index_image_pairs: ip, antitone_index_stroke_pairs: sp } => {
                &&& after.image_entries() == insert_pairs(before.image_entries(), fresh_pairs(ip@.reverse()))
                &&& after.stroke_entries() == insert_pairs(before.stroke_entries(), fresh_pairs(sp@.reverse()))
                &&& operation matches Operation::DeleteObjects { monotone_image_indices: mi, monotone_stroke_indices: ms }
                &&& mi@ == pair_indices(ip@).reverse()
                &&& ms@ == pair_indices(sp@).reverse()
                &&& after.base_dirty_image_index_spec() == if mi@.len() > 0 {
                    min_index(before.base_dirty_image_index_spec(), mi@[0])
                } else {
                    before.base_dirty_image_index_spec()
                }
                &&& after.base_dirty_stroke_index_spec() == if ms@.len() > 0 {
                    min_index(before.base_dirty_stroke_index_spec(), ms@[0])
                } else {
                    before.base_dirty_stroke_index_spec()
                }
            },
            Retraction::RecolorStrokes { index_color_pairs: pairs, new_color } => {
                &&& after.image_entries() == before.image_entries()
                &&& after.stroke_entries().len() == before.stroke_entries().len()
                &&& forall|k: int| 0 <= k < before.stroke_entries().len() ==> {
                    let (a, b) = (#[trigger] after.stroke_entries()[k], before.stroke_entries()[k]);
                    match restored_color(pairs@, k as usize) {
                        Some(c) => a.value() == recolored(b.value(), c) && a.is_dirty(),
                        None => a == b,
                    }
                }
                &&& operation matches Operation::RecolorStrokes { indices, new_color: c }
                &&& indices@ == pair_indices(pairs@)
                &&& c == new_color
                &&& after.base_dirty_image_index_spec() == before.base_dirty_image_index_spec()
                &&& after.base_dirty_stroke_index_spec() == before.base_dirty_stroke_index_spec()
            },
            Retraction::TransformObjects { image_indices, stroke_indices, transformation } => {
                &&& entries_transformed(before.image_entries(), after.image_entries(), image_indices@, transformation, true, transform)
                &&& entries_transformed(before.stroke_entries(), after.stroke_entries(), stroke_indices@, transformation, true, transform)
                &&& operation matches Operation::TransformObjects { image_indices: a, stroke_indices: b, transformation: t }
                &&& a@ == image_indices@
                &&& b@ == stroke_indices@
                &&& t == transformation
                &&& after.base_dirty_image_index_spec() == before.base_dirty_image_index_spec()
                &&& after.base_dirty_stroke_index_spec() == before.base_dirty_stroke_index_spec()
            },
        }
    }

    /// Takes the last `length` entries off the end, the last one first.
    fn pop_entries<A>(entries: &mut Vec<A>, length: usize) -> (popped: Vec<A>)
        requires
            length <= old(entries)@.len(),
        ensures
            final(entries)@ == old(entries)@.subrange(0, old(entries)@.len() - length),
            popped@ == old(entries)@.subrange(old(entries)@.len() - length, old(entries)@.len() as int).reverse(),
    {
        let ghost initial = entries@;
        let ghost n = entries@.len();
        let mut popped: Vec<A> = Vec::with_capacity(length);
        let mut i: usize = 0;
        while i < length
            invariant
                i <= length <= n,
                n == initial.len(),
                entries@ == initial.subrange(0, n - i),
                popped@ == initial.subrange(n - i, n as int).reverse(),
            decreases length - i,
        {
            let entry = entries.pop().unwrap();
            popped.push(entry);
            i += 1;
            proof {
                assert(entries@ =~= initial.subrange(0, n - i));
                assert(popped@ =~= initial.subrange(n - i, n as int).reverse());
            }
        }
        popped
    }

    /// Undoes a retraction on the objects and returns what redoes it.
    fn revert<F: Fn(&P, &T, bool) -> P>(&mut self, retraction: Retraction<P, T, E, G>, transform: &F) -> (operation: Operation<P, T, E, G>)
        requires
            old(self).base_dirty_stroke_index_spec() <= old(self).stroke_entries().len(),
            retraction_counts(retraction, old(self).counts()) is Some,
            forall|p: &P, u: &T, b: bool| call_requires(*transform, (p, u, b)),
        ensures
            Self::reverted(*old(self), *final(self), retraction, operation, *transform),
            Some(final(self).counts()) == retraction_counts(retraction, old(self).counts()),
            operation_counts(operation, final(self).counts()) == Some(old(self).counts()),
            final(self).base_dirty_stroke_index_spec() <= final(self).stroke_entries().len(),
            final(self).pending_operations() == old(self).pending_operations(),
            final(self).retractions() == old(self).retractions(),
            final(self).texture_entries() == old(self).texture_entries(),
            final(self).saved_retraction_count() == old(self).saved_retraction_count(),
    {
        match retraction {
            Retraction::CommitStrokes(length) => {
                let strokes = Self::pop_entries(&mut self.strokes, length);
                let remaining = self.strokes.len();
                if remaining < self.base_dirty_stroke_index {
                    self.base_dirty_stroke_index = remaining;
                }
                Operation::CommitStrokes { strokes }
            },
            Retraction::CommitImages(length) => {
                let images = Self::pop_entries(&mut self.images, length);
                Operation::CommitImages { images }
            },
            Retraction::DeleteObjects { antitone_index_image_pairs, antitone_index_stroke_pairs } => {
                proof {
                    lemma_reinserted_removable(pair_indices(antitone_index_image_pairs@), self.images@.len());
                    lemma_reinserted_removable(pair_indices(antitone_index_stroke_pairs@), self.strokes@.len());
                }
                let monotone_image_indices = reinsert_entries(&mut self.images, antitone_index_image_pairs);
                if monotone_image_indices.len() > 0 {
                    let first = monotone_image_indices[0];
                    if first < self.base_dirty_image_index {
                        self.base_dirty_image_index = first;
                    }
                }
                let monotone_stroke_indices = reinsert_entries(&mut self.strokes, antitone_index_stroke_pairs);
                if monotone_stroke_indices.len() > 0 {
                    let first = monotone_stroke_indices[0];
                    if first < self.base_dirty_stroke_index {
                        self.base_dirty_stroke_index = first;
                    }
                }
                Operation::DeleteObjects { monotone_image_indices, monotone_stroke_indices }
            },
            Retraction::RecolorStrokes { index_color_pairs, new_color } => {
                let indices = restore_entry_colors(&mut self.strokes, index_color_pairs);
                Operation::RecolorStrokes { indices, new_color }
            },
            Retraction::TransformObjects { image_indices, stroke_indices, transformation } => {
                transform_entries(&mut self.images, &image_indices, &transformation, true, transform);
                transform_entries(&mut self.strokes, &stroke_indices, &transformation, true, transform);
                Operation::TransformObjects { image_indices, stroke_indices, transformation }
            },
        }
    }
}


impl<P, T, E, G, X> Canvas<P, T, E, G, X> {
    /// The two canvases hold the same objects, history, textures and marks.
    pub open spec fn same_as(self, other: Self) -> bool {
        &&& self.image_entries() == other.image_entries()
        &&& self.stroke_entries() == other.stroke_entries()
        &&& self.pending_operations() == other.pending_operations()
        &&& self.retractions() == other.retractions()
        &&& self.texture_entries() == other.texture_entries()
        &&& self.saved_retraction_count() == other.saved_retraction_count()
        &&& self.base_dirty_image_index_spec() == other.base_dirty_image_index_spec()
        &&& self.base_dirty_stroke_index_spec() == other.base_dirty_stroke_index_spec()
    }

    /// `after` is what `redo` makes of `before`.
    pub open spec fn redone<F: Fn(&P, &T, bool) -> P>(before: Self, after: Self, transform: F) -> bool {
        &&& before.pending_operations().len() == 0 ==> after.same_as(before)
        &&& before.pending_operations().len() > 0 ==> {
            &&& after.pending_operations() == before.pending_operations().drop_last()
            &&& after.retractions().drop_last() == before.retractions()
            &&& after.retractions().len() == before.retractions().len() + 1
            &&& Self::applied(before, after, before.pending_operations().last(), after.retractions().last(), transform)
        }
        &&& after.texture_entries() == before.texture_entries()
        &&& after.saved_retraction_count() == before.saved_retraction_count()
    }

    /// `after` is what `undo` makes of `before`.
    pub open spec fn undone<F: Fn(&P, &T, bool) -> P>(before: Self, after: Self, transform: F) -> bool {
        &&& before.retractions().len() == 0 ==> after.same_as(before)
        &&& before.retractions().len() > 0 ==> {
            &&& after.retractions() == before.retractions().drop_last()
            &&& after.pending_operations().drop_last() == before.pending_operations()
            &&& after.pending_operations().len() == before.pending_operations().len() + 1
            &&& Self::reverted(before, after, before.retractions().last(), after.pending_operations().last(), transform)
        }
        &&& after.texture_entries() == before.texture_entries()
        &&& after.saved_retraction_count() == before.saved_retraction_count()
    }

    /// `after` is what `perform_operation` makes of `before` and `operation`.
    pub open spec fn performed<F: Fn(&P, &T, bool) -> P>(before: Self, after: Self, operation: Operation<P, T, E, G>, transform: F) -> bool {
        &&& after.pending_operations().len() == 0
        &&& after.retractions().drop_last() == before.retractions()
        &&& after.retractions().len() == before.retractions().len() + 1
        &&& Self::applied(before, after, operation, after.retractions().last(), transform)
        &&& after.saved_retraction_count() == match before.saved_retraction_count() {
            Some(c) => if before.retractions().len() < c { None } else { Some(c) },
            None => None,
        }
        &&& after.texture_entries() == before.texture_entries()
    }

    /// Applies the most recently undone operation, if there is one.
    /// `transform(placement, transformation, inverse)` moves one placement.
    pub fn redo<F: Fn(&P, &T, bool) -> P>(&mut self, transform: &F)
        requires
            old(self).wf(),
            forall|p: &P, u: &T, b: bool| call_requires(*transform, (p, u, b)),
        ensures
            final(self).wf(),
            Self::redone(*old(self), *final(self), *transform),
    {
        if let Some(operation) = self.operations.pop() {
            proof {
                assert(old(self).operations@.drop_last() == self.operations@);
            }
            let retraction = self.apply(operation, transform);
            let ghost before_push = self.retractions@;
            self.retractions.push(retraction);
            proof {
                assert(self.retractions@.drop_last() =~= before_push);
                assert(self.retractions@.last() == retraction);
            }
            proof {
                assert(self.images@.len() == self.images.len());
                assert(self.strokes@.len() == self.strokes.len());
                assert(self.retractions@.len() == self.retractions.len());
            }
        }
    }

    /// Takes back the most recently applied operation, if there is one.
    /// `transform(placement, transformation, inverse)` moves one placement.
    pub fn undo<F: Fn(&P, &T, bool) -> P>(&mut self, transform: &F)
        requires
            old(self).wf(),
            forall|p: &P, u: &T, b: bool| call_requires(*transform, (p, u, b)),
        ensures
            final(self).wf(),
            Self::undone(*old(self), *final(self), *transform),
    {
        if let Some(retraction) = self.retractions.pop() {
            proof {
                assert(old(self).retractions@.drop_last() == self.retractions@);
            }
            let operation = self.revert(retraction, transform);
            let ghost before_push = self.operations@;
            self.operations.push(operation);
            proof {
                assert(self.operations@.drop_last() =~= before_push);
                assert(self.operations@.last() == operation);
            }
            proof {
                assert(self.images@.len() == self.images.len());
                assert(self.strokes@.len() == self.strokes.len());
                assert(self.retractions@.len() == self.retractions.len());
            }
        }
    }

    /// Whether `operation` can be applied to this canvas: the positions of a
    /// deletion, removed the last one first, must each name an object still
    /// there by then (increasing positions of existing objects always do).
    pub fn can_perform(&self, operation: &Operation<P, T, E, G>) -> (r: bool)
        ensures
            r == (operation_counts(*operation, self.counts()) is Some),
    {
        match operation {
            Operation::DeleteObjects { monotone_image_indices, monotone_stroke_indices } => {
                Self::indices_fit(monotone_image_indices, self.images.len())
                    && Self::indices_fit(monotone_stroke_indices, self.strokes.len())
            },
            _ => true,
        }
    }

    /// Whether the elements at `indices`, the last one first, can be removed
    /// from `length` elements.
    fn indices_fit(indices: &Vec<usize>, length: usize) -> (r: bool)
        ensures
            r == removable(indices@, length as nat),
    {
        let k = indices.len();
        let mut j: usize = 0;
        while j < k
            invariant
                k == indices@.len(),
                j <= k,
                forall|q: int| 0 <= q < j ==> #[trigger] indices@[q] + (k - q) <= length,
            decreases k - j,
        {
            let left = k - j;
            if left > length || indices[j] > length - left {
                assert(!(indices@[j as int] + (k - j) <= length));
                return false;
            }
            j += 1;
        }
        true
    }

    /// Applies a new operation, discarding whatever could have been redone.
    /// If the saved state was among the discarded ones, it can no longer be
    /// reached.
    pub fn perform_operation<F: Fn(&P, &T, bool) -> P>(&mut self, operation: Operation<P, T, E, G>, transform: &F)
        requires
            old(self).wf(),
            operation_counts(operation, old(self).counts()) is Some,
            forall|p: &P, u: &T, b: bool| call_requires(*transform, (p, u, b)),
        ensures
            final(self).wf(),
            Self::performed(*old(self), *final(self), operation, *transform),
    {
        if let Some(retraction_count_at_save) = self.retraction_count_at_save {
            if self.retractions.len() < retraction_count_at_save {
                self.retraction_count_at_save = None;
            }
        }
        self.operations.clear();
        let retraction = self.apply(operation, transform);
        let ghost before_push = self.retractions@;
        self.retractions.push(retraction);
        proof {
            assert(self.retractions@.drop_last() =~= before_push);
            assert(self.retractions@.last() == retraction);
        }
        proof {
            assert(self.images@.len() == self.images.len());
            assert(self.strokes@.len() == self.strokes.len());
            assert(self.retractions@.len() == self.retractions.len());
        }
    }
}


/// The positions of the selected objects, in increasing order.
pub open spec fn selected_positions<O, P>(s: Seq<Watched<Object<O, P>>>) -> Seq<usize>
    decreases s.len(),
{
    if s.len() == 0 {
        Seq::empty()
    } else {
        let previous = selected_positions(s.drop_last());
        if s.last().value().is_selected {
            previous.push((s.len() - 1) as usize)
        } else {
            previous
        }
    }
}

/// Collects the positions of the selected entries, in increasing order.
fn selected_entry_indices<O, P>(entries: &Vec<Watched<Object<O, P>>>) -> (r: Vec<usize>)
    ensures
        r@ == selected_positions(entries@),
        strictly_increasing(r@),
        all_below(r@, entries@.len()),
        forall|k: int| 0 <= k < entries@.len() ==> (r@.contains(k as usize) <==> #[trigger] entries@[k].value().is_selected),
{
    let mut r: Vec<usize> = Vec::new();
    let mut i: usize = 0;
    while i < entries.len()
        invariant
            0 <= i <= entries@.len(),
            r@ == selected_positions(entries@.take(i as int)),
            strictly_increasing(r@),
            all_below(r@, i as nat),
            forall|k: int| 0 <= k < i ==> (r@.contains(k as usize) <==> #[trigger] entries@[k].value().is_selected),
        decreases entries@.len() - i,
    {
        proof {
            assert(entries@.take(i + 1).drop_last() =~= entries@.take(i as int));
        }
        let ghost before = r@;
        if entries[i].as_ref().is_selected {
            r.push(i);
            proof {
                assert forall|k: int| 0 <= k <= i implies (r@.contains(k as usize) <==> #[trigger] entries@[k].value().is_selected) by {
                    if k < i && before.contains(k as usize) {
                        let w = choose|w: int| 0 <= w < before.len() && before[w] == k as usize;
                        assert(r@[w] == k as usize);
                    }
                    if r@.contains(k as usize) && k < i {
                        let w = choose|w: int| 0 <= w < r@.len() && r@[w] == k as usize;
                        if w == before.len() {
                            assert(false);
                        } else {
                            assert(before[w] == k as usize);
                        }
                    }
                    if k == i {
                        assert(r@[before.len() as int] == k as usize);
                    }
                }
            }
        } else {
            proof {
                assert(!before.contains(i)) by {
                    if before.contains(i) {
                        let w = choose|w: int| 0 <= w < before.len() && before[w] == i;
                    }
                }
            }
        }
        i += 1;
    }
    assert(entries@.take(entries@.len() as int) =~= entries@);
    r
}

impl<P, T, E, G, X> Canvas<P, T, E, G, X> {
    /// The positions of the selected images, in increasing order.
    pub fn selected_image_indices(&self) -> (r: Vec<usize>)
        ensures
            r@ == selected_positions(self.image_entries()),
            strictly_increasing(r@),
            all_below(r@, self.image_entries().len()),
            forall|k: int| 0 <= k < self.image_entries().len() ==> (r@.contains(k as usize) <==> #[trigger] self.image_entries()[k].value().is_selected),
    {
        selected_entry_indices(&self.images)
    }

    /// The positions of the selected strokes, in increasing order.
    pub fn selected_stroke_indices(&self) -> (r: Vec<usize>)
        ensures
            r@ == selected_positions(self.stroke_entries()),
            strictly_increasing(r@),
            all_below(r@, self.stroke_entries().len()),
            forall|k: int| 0 <= k < self.stroke_entries().len() ==> (r@.contains(k as usize) <==> #[trigger] self.stroke_entries()[k].value().is_selected),
    {
        selected_entry_indices(&self.strokes)
    }

    /// Deletes the selected objects as one operation that can be undone, and
    /// says whether it did; only a selection that holds a stroke is deleted.
    pub fn delete_selection<F: Fn(&P, &T, bool) -> P>(&mut self, transform: &F) -> (r: bool)
        requires
            old(self).wf(),
            forall|p: &P, u: &T, b: bool| call_requires(*transform, (p, u, b)),
        ensures
            final(self).wf(),
            r == (selected_positions(old(self).stroke_entries()).len() > 0),
            !r ==> *final(self) == *old(self),
            r ==> exists|image_indices: Vec<usize>, stroke_indices: Vec<usize>|
                image_indices@ == selected_positions(old(self).image_entries())
                    && stroke_indices@ == selected_positions(old(self).stroke_entries())
                    && #[trigger] Self::performed(
                    *old(self),
                    *final(self),
                    (Operation::DeleteObjects { monotone_image_indices: image_indices, monotone_stroke_indices: stroke_indices }),
                    *transform,
                ),
    {
        let image_indices = self.selected_image_indices();
        let stroke_indices = self.selected_stroke_indices();
        if stroke_indices.len() == 0 {
            return false;
        }
        proof {
            lemma_increasing_removable(image_indices@, self.image_entries().len());
            lemma_increasing_removable(stroke_indices@, self.stroke_entries().len());
        }
        let operation = Operation::DeleteObjects { monotone_image_indices: image_indices, monotone_stroke_indices: stroke_indices };
        let ghost chosen = operation;
        self.perform_operation(operation, transform);
        proof {
            assert(Self::performed(*old(self), *self, chosen, *transform));
        }
        true
    }

    /// Gives the selected strokes `new_color` as one operation that can be
    /// undone, and says whether any stroke was selected.
    pub fn recolor_selection<F: Fn(&P, &T, bool) -> P>(&mut self, new_color: Srgba8, transform: &F) -> (r: bool)
        requires
            old(self).wf(),
            forall|p: &P, u: &T, b: bool| call_requires(*transform, (p, u, b)),
        ensures
            final(self).wf(),
            r == (selected_positions(old(self).stroke_entries()).len() > 0),
            !r ==> *final(self) == *old(self),
            r ==> exists|indices: Vec<usize>|
                indices@ == selected_positions(old(self).stroke_entries())
                    && #[trigger] Self::performed(
                    *old(self),
                    *final(self),
                    (Operation::RecolorStrokes { indices, new_color }),
                    *transform,
                ),
    {
        let indices = self.selected_stroke_indices();
        if indices.len() == 0 {
            return false;
        }
        let operation = Operation::RecolorStrokes { indices, new_color };
        let ghost chosen = operation;
        self.perform_operation(operation, transform);
        proof {
            assert(Self::performed(*old(self), *self, chosen, *transform));
        }
        true
    }

    /// Transforms the selected objects by `transformation` as one operation
    /// that can be undone, and says whether anything was selected; with nothing
    /// selected the canvas is left as it is.
    pub fn transform_selection<F: Fn(&P, &T, bool) -> P>(&mut self, transformation: T, transform: &F) -> (r: bool)
        requires
            old(self).wf(),
            forall|p: &P, u: &T, b: bool| call_requires(*transform, (p, u, b)),
        ensures
            final(self).wf(),
            r == (selected_positions(old(self).image_entries()).len() > 0
                || selected_positions(old(self).stroke_entries()).len() > 0),
            !r ==> *final(self) == *old(self),
            r ==> exists|image_indices: Vec<usize>, stroke_indices: Vec<usize>|
                image_indices@ == selected_positions(old(self).image_entries())
                    && stroke_indices@ == selected_positions(old(self).stroke_entries())
                    && #[trigger] Self::performed(
                    *old(self),
                    *final(self),
                    (Operation::TransformObjects { image_indices, stroke_indices, transformation }),
                    *transform,
                ),
    {
        let image_indices = self.selected_image_indices();
        let stroke_indices = self.selected_stroke_indices();
        if image_indices.len() == 0 && stroke_indices.len() == 0 {
            return false;
        }
        let operation = Operation::TransformObjects { image_indices, stroke_indices, transformation };
        let ghost chosen = operation;
        self.perform_operation(operation, transform);
        proof {
            assert(Self::performed(*old(self), *self, chosen, *transform));
        }
        true
    }
}


impl<P, T, E, G, X> Canvas<P, T, E, G, X> {
    /// Mutable access to one image; the history does not record changes made
    /// through it.
    pub fn image_mut(&mut self, index: usize) -> (r: &mut Watched<Object<Image<E>, P>>)
        requires
            old(self).wf(),
            index < old(self).image_entries().len(),
        ensures
            *r == old(self).image_entries()[index as int],
            final(self).image_entries() == old(self).image_entries().update(index as int, *final(r)),
            final(self).stroke_entries() == old(self).stroke_entries(),
            final(self).pending_operations() == old(self).pending_operations(),
            final(self).retractions() == old(self).retractions(),
            final(self).texture_entries() == old(self).texture_entries(),
            final(self).saved_retraction_count() == old(self).saved_retraction_count(),
            final(self).base_dirty_image_index_spec() == old(self).base_dirty_image_index_spec(),
            final(self).base_dirty_stroke_index_spec() == old(self).base_dirty_stroke_index_spec(),
            final(self).wf(),
    {
        &mut self.images[index]
    }

    /// Mutable access to one stroke; the history does not record changes made
    /// through it.
    pub fn stroke_mut(&mut self, index: usize) -> (r: &mut Watched<Object<Stroke<G>, P>>)
        requires
            old(self).wf(),
            index < old(self).stroke_entries().len(),
        ensures
            *r == old(self).stroke_entries()[index as int],
            final(self).stroke_entries() == old(self).stroke_entries().update(index as int, *final(r)),
            final(self).image_entries() == old(self).image_entries(),
            final(self).pending_operations() == old(self).pending_operations(),
            final(self).retractions() == old(self).retractions(),
            final(self).texture_entries() == old(self).texture_entries(),
            final(self).saved_retraction_count() == old(self).saved_retraction_count(),
            final(self).base_dirty_image_index_spec() == old(self).base_dirty_image_index_spec(),
            final(self).base_dirty_stroke_index_spec() == old(self).base_dirty_stroke_index_spec(),
            final(self).wf(),
    {
        &mut self.strokes[index]
    }

    /// Records that the images before `index` have been prepared.
    pub fn set_base_dirty_image_index(&mut self, index: usize)
        requires
            old(self).wf(),
        ensures
            final(self).wf(),
            final(self).base_dirty_image_index_spec() == index,
            final(self).image_entries() == old(self).image_entries(),
            final(self).stroke_entries() == old(self).stroke_entries(),
            final(self).pending_operations() == old(self).pending_operations(),
            final(self).retractions() == old(self).retractions(),
            final(self).texture_entries() == old(self).texture_entries(),
            final(self).saved_retraction_count() == old(self).saved_retraction_count(),
            final(self).base_dirty_stroke_index_spec() == old(self).base_dirty_stroke_index_spec(),
    {
        self.base_dirty_image_index = index;
    }

    /// Records that the strokes before `index` have been prepared.
    pub fn set_base_dirty_stroke_index(&mut self, index: usize)
        requires
            old(self).wf(),
            index <= old(self).stroke_entries().len(),
        ensures
            final(self).wf(),
            final(self).base_dirty_stroke_index_spec() == index,
            final(self).image_entries() == old(self).image_entries(),
            final(self).stroke_entries() == old(self).stroke_entries(),
            final(self).pending_operations() == old(self).pending_operations(),
            final(self).retractions() == old(self).retractions(),
            final(self).texture_entries() == old(self).texture_entries(),
            final(self).saved_retraction_count() == old(self).saved_retraction_count(),
            final(self).base_dirty_image_index_spec() == old(self).base_dirty_image_index_spec(),
    {
        self.base_dirty_stroke_index = index;
    }

    /// Adds a texture and returns its index.
    pub fn push_texture(&mut self, texture: X) -> (index: usize)
        requires
            old(self).wf(),
            old(self).texture_entries().len() < usize::MAX,
        ensures
            final(self).wf(),
            final(self).texture_entries() == old(self).texture_entries().push(texture),
            index == old(self).texture_entries().len(),
            final(self).image_entries() == old(self).image_entries(),
            final(self).stroke_entries() == old(self).stroke_entries(),
            final(self).pending_operations() == old(self).pending_operations(),
            final(self).retractions() == old(self).retractions(),
            final(self).saved_retraction_count() == old(self).saved_retraction_count(),
            final(self).base_dirty_image_index_spec() == old(self).base_dirty_image_index_spec(),
            final(self).base_dirty_stroke_index_spec() == old(self).base_dirty_stroke_index_spec(),
    {
        self.textures.push(texture);
        self.textures.len() - 1
    }

    /// Mutable access to the textures.
    pub fn textures_mut(&mut self) -> (r: &mut Vec<X>)
        requires
            old(self).wf(),
        ensures
            r@ == old(self).texture_entries(),
            final(self).texture_entries() == final(r)@,
            final(self).image_entries() == old(self).image_entries(),
            final(self).stroke_entries() == old(self).stroke_entries(),
            final(self).pending_operations() == old(self).pending_operations(),
            final(self).retractions() == old(self).retractions(),
            final(self).saved_retraction_count() == old(self).saved_retraction_count(),
            final(self).base_dirty_image_index_spec() == old(self).base_dirty_image_index_spec(),
            final(self).base_dirty_stroke_index_spec() == old(self).base_dirty_stroke_index_spec(),
            final(self).wf(),
    {
        &mut self.textures
    }
}


impl<P, T, E, G, X> Canvas<P, T, E, G, X> {
    /// Whether some image draws from the texture at `t`.
    pub open spec fn texture_referenced(&self, t: int) -> bool {
        exists|i: int| 0 <= i < self.image_entries().len() && #[trigger] self.image_entries()[i].value().object.texture_index == t
    }

    /// For each texture, whether some image draws from it.
    pub fn referenced_textures(&self) -> (r: Vec<bool>)
        requires
            forall|i: int| 0 <= i < self.image_entries().len() ==>
                (#[trigger] self.image_entries()[i]).value().object.texture_index < self.texture_entries().len(),
        ensures
            r@.len() == self.texture_entries().len(),
            forall|t: int| 0 <= t < r@.len() ==> #[trigger] r@[t] == self.texture_referenced(t),
    {
        let mut r: Vec<bool> = Vec::new();
        let mut t: usize = 0;
        while t < self.textures.len()
            invariant
                0 <= t <= self.textures@.len(),
                r@.len() == t,
                forall|k: int| 0 <= k < t ==> !#[trigger] r@[k],
            decreases self.textures@.len() - t,
        {
            r.push(false);
            t += 1;
        }
        let mut i: usize = 0;
        while i < self.images.len()
            invariant
                0 <= i <= self.images@.len(),
                r@.len() == self.textures@.len(),
                forall|k: int| 0 <= k < self.images@.len() ==>
                    (#[trigger] self.image_entries()[k]).value().object.texture_index < self.texture_entries().len(),
                forall|t: int| 0 <= t < r@.len() ==> #[trigger] r@[t] == exists|k: int| 0 <= k < i && #[trigger] self.image_entries()[k].value().object.texture_index == t,
            decreases self.images@.len() - i,
        {
            let index = self.images[i].as_ref().object.texture_index;
            assert(self.image_entries()[i as int] == self.images@[i as int]);
            r.set(index, true);
            i += 1;
            proof {
                assert forall|t: int| 0 <= t < r@.len() implies #[trigger] r@[t] == exists|k: int| 0 <= k < i && #[trigger] self.image_entries()[k].value().object.texture_index == t by {
                    if t == index as int {
                        assert(self.image_entries()[i - 1].value().object.texture_index == t);
                    } else if r@[t] {
                        let k = choose|k: int| 0 <= k < i - 1 && #[trigger] self.image_entries()[k].value().object.texture_index == t;
                        assert(0 <= k < i);
                    } else {
                        assert forall|k: int| 0 <= k < i implies #[trigger] self.image_entries()[k].value().object.texture_index != t by {
                            if k < i - 1 {
                            }
                        }
                    }
                }
            }
        }
        r
    }
}

} // verus!
