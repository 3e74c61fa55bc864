use vstd::prelude::*;

verus! {

/// How a line of text is aligned.
#[derive(Clone, Copy, PartialEq, Eq, Structural, Debug)]
pub enum Align {
    Left,
    Center,
    Right,
}

/// A batch of instances of one kind of shape to draw, as a range of instance
/// indices.
#[derive(Clone, Copy, PartialEq, Eq, Structural, Debug)]
pub enum RenderCommand {
    Card { start: u32, end: u32 },
    ColorRing { start: u32, end: u32 },
    ColorTrigon { start: u32, end: u32 },
}

/// The kind of a draw command: text, a card, or a colour selector (drawn as a
/// ring and a triangle).
#[derive(Clone, Copy, PartialEq, Eq, Structural, Debug)]
pub enum DrawKind {
    Text,
    Card,
    ColorSelector,
}

/// How many draw commands of `kinds` produce a card instance.
pub open spec fn count_cards(kinds: Seq<DrawKind>) -> nat
    decreases kinds.len(),
{
    if kinds.len() == 0 {
        0
    } else {
        count_cards(kinds.drop_last()) + if kinds.last() == DrawKind::Card { 1nat } else { 0nat }
    }
}

/// How many draw commands of `kinds` produce a colour selector.
pub open spec fn count_selectors(kinds: Seq<DrawKind>) -> nat
    decreases kinds.len(),
{
    if kinds.len() == 0 {
        0
    } else {
        count_selectors(kinds.drop_last()) + if kinds.last() == DrawKind::ColorSelector { 1nat } else { 0nat }
    }
}

/// The render commands for the draw commands of `kinds`, in order: each card
/// gets the next card instance, each colour selector the next ring instance and
/// the next triangle instance; text is drawn separately.
pub open spec fn render_commands(kinds: Seq<DrawKind>) -> Seq<RenderCommand>
    decreases kinds.len(),
{
    if kinds.len() == 0 {
        Seq::empty()
    } else {
        let previous = kinds.drop_last();
        let cards = count_cards(previous) as u32;
        let selectors = count_selectors(previous) as u32;
        render_commands(previous) + match kinds.last() {
            DrawKind::Text => Seq::empty(),
            DrawKind::Card => seq![RenderCommand::Card { start: cards, end: (cards + 1) as u32 }],
            DrawKind::ColorSelector => seq![
                RenderCommand::ColorRing { start: selectors, end: (selectors + 1) as u32 },
                RenderCommand::ColorTrigon { start: selectors, end: (selectors + 1) as u32 },
            ],
        }
    }
}

/// Assigns the instance ranges to draw each command with.
pub fn plan_render_commands(kinds: &Vec<DrawKind>) -> (r: Vec<RenderCommand>)
    requires
        kinds@.len() < u32::MAX,
    ensures
        r@ == render_commands(kinds@),
{
    let mut commands: Vec<RenderCommand> = Vec::new();
    let mut cards: u32 = 0;
    let mut selectors: u32 = 0;
    let mut i: usize = 0;
    while i < kinds.len()
        invariant
            0 <= i <= kinds@.len(),
            kinds@.len() < u32::MAX,
            cards == count_cards(kinds@.take(i as int)),
            selectors == count_selectors(kinds@.take(i as int)),
            cards <= i,
            selectors <= i,
            commands@ == render_commands(kinds@.take(i as int)),
        decreases kinds@.len() - i,
    {
        let kind = kinds[i];
        proof {
            assert(kinds@.take(i + 1).drop_last() =~= kinds@.take(i as int));
        }
        let ghost before = commands@;
        match kind {
            DrawKind::Text => {},
            DrawKind::Card => {
                commands.push(RenderCommand::Card { start: cards, end: cards + 1 });
                cards = cards + 1;
            },
            DrawKind::ColorSelector => {
                commands.push(RenderCommand::ColorRing { start: selectors, end: selectors + 1 });
                commands.push(RenderCommand::ColorTrigon { start: selectors, end: selectors + 1 });
                selectors = selectors + 1;
            },
        }
        i += 1;
        proof {
            assert(commands@ =~= render_commands(kinds@.take(i as int)));
        }
    }
    assert(kinds@.take(kinds@.len() as int) =~= kinds@);
    commands
}

/// The sum of the first `end` counts.
pub open spec fn count_sum(counts: Seq<usize>, end: int) -> nat
    decreases end,
{
    if end <= 0 {
        0
    } else {
        count_sum(counts, end - 1) + counts[end - 1] as nat
    }
}

proof fn lemma_count_sum_monotone(counts: Seq<usize>, a: int, b: int)
    requires
        0 <= a <= b,
    ensures
        count_sum(counts, a) <= count_sum(counts, b),
    decreases b - a,
{
    if a < b {
        lemma_count_sum_monotone(counts, a, b - 1);
    }
}

/// Where the geometry of the strokes from the first dirty one on goes: the
/// clean strokes before it keep their vertices, indices and extensions, and
/// each dirty stroke's indices are offset by the vertices before it.
pub struct StrokeUpload {
    /// The number of vertices of the clean strokes, where new vertices start.
    pub vertex_offset: usize,
    /// The number of indices of the clean strokes, where new indices start.
    pub index_offset: usize,
    /// The first stroke whose extension is written again.
    pub extension_offset: usize,
    /// For each dirty stroke, in order, its first vertex's index.
    pub index_bases: Vec<u32>,
    /// The end of the range of indices to draw: all indices of all strokes.
    pub index_end: u32,
}

/// Plans the upload of stroke geometry when the strokes before `first_dirty`
/// are already on the graphics card; stroke `i` has `vertex_counts[i]`
/// vertices and `index_counts[i]` indices (a stroke being drawn comes last).
pub fn plan_stroke_upload(vertex_counts: &Vec<usize>, index_counts: &Vec<usize>, first_dirty: usize) -> (r: StrokeUpload)
    requires
        vertex_counts@.len() == index_counts@.len(),
        first_dirty <= vertex_counts@.len(),
        count_sum(vertex_counts@, vertex_counts@.len() as int) <= u32::MAX,
        count_sum(index_counts@, index_counts@.len() as int) <= u32::MAX,
    ensures
        r.extension_offset == first_dirty,
        r.vertex_offset == count_sum(vertex_counts@, first_dirty as int),
        r.index_offset == count_sum(index_counts@, first_dirty as int),
        r.index_bases@.len() == vertex_counts@.len() - first_dirty,
        forall|i: int| 0 <= i < r.index_bases@.len() ==> #[trigger] r.index_bases@[i] == count_sum(vertex_counts@, first_dirty + i),
        r.index_end == count_sum(index_counts@, index_counts@.len() as int),
{
    let n = vertex_counts.len();
    let ghost total_vertices = count_sum(vertex_counts@, n as int);
    let ghost total_indices = count_sum(index_counts@, n as int);
    let mut vertices: usize = 0;
    let mut indices: usize = 0;
    let mut vertex_offset: usize = 0;
    let mut index_offset: usize = 0;
    let mut index_bases: Vec<u32> = Vec::new();
    let mut i: usize = 0;
    while i < n
        invariant
            n == vertex_counts@.len(),
            n == index_counts@.len(),
            first_dirty <= n,
            i <= n,
            total_vertices == count_sum(vertex_counts@, n as int),
            total_indices == count_sum(index_counts@, n as int),
            total_vertices <= u32::MAX,
            total_indices <= u32::MAX,
            vertices == count_sum(vertex_counts@, i as int),
            indices == count_sum(index_counts@, i as int),
            i <= first_dirty ==> vertex_offset == 0 && index_offset == 0 && index_bases@.len() == 0,
            i > first_dirty ==> {
                &&& vertex_offset == count_sum(vertex_counts@, first_dirty as int)
                &&& index_offset == count_sum(index_counts@, first_dirty as int)
                &&& index_bases@.len() == i - first_dirty
            },
            forall|k: int| 0 <= k < index_bases@.len() ==> #[trigger] index_bases@[k] == count_sum(vertex_counts@, first_dirty + k),
        decreases n - i,
    {
        proof {
            lemma_count_sum_monotone(vertex_counts@, i + 1, n as int);
            lemma_count_sum_monotone(index_counts@, i + 1, n as int);
        }
        if i == first_dirty {
            vertex_offset = vertices;
            index_offset = indices;
        }
        if i >= first_dirty {
            proof {
                lemma_count_sum_monotone(vertex_counts@, i as int, n as int);
            }
            index_bases.push(vertices as u32);
        }
        vertices = vertices + vertex_counts[i];
        indices = indices + index_counts[i];
        i += 1;
    }
    if first_dirty == n {
        vertex_offset = vertices;
        index_offset = indices;
    }
    proof {
        lemma_count_sum_monotone(index_counts@, n as int, n as int);
    }
    StrokeUpload { vertex_offset, index_offset, extension_offset: first_dirty, index_bases, index_end: indices as u32 }
}

} // verus!
