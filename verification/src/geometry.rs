use vstd::prelude::*;

verus! {

/// Which way a stroke bends at one of its interior points.
#[derive(Clone, Copy, PartialEq, Eq, Structural, Debug)]
pub enum Turn {
    Clockwise,
    Counterclockwise,
    Straight,
}

/// The vertex indices of a one-point stroke: seven triangles fanning out from
/// the centre (vertex 0) to the seven corners of a heptagon (vertices 1 to 7).
pub open spec fn heptagon_triangles() -> Seq<int> {
    seq![0, 1, 2, 0, 2, 3, 0, 3, 4, 0, 4, 5, 0, 5, 6, 0, 6, 7, 0, 7, 1]
}

/// The two triangles that fill the quad of segment `k`, whose four vertices
/// are `4k` and `4k + 1` at its start and `4k + 2` and `4k + 3` at its end.
pub open spec fn segment_triangles(k: int) -> Seq<int> {
    seq![4 * k, 4 * k + 2, 4 * k + 3, 4 * k, 4 * k + 3, 4 * k + 1]
}

/// The triangle that closes the gap on the outer side of the bend between
/// segments `i` and `i + 1`, if the stroke bends there.
pub open spec fn join_triangle(i: int, turn: Turn) -> Seq<int> {
    match turn {
        Turn::Clockwise => seq![4 * i + 2, 4 * i + 4, 4 * i + 5],
        Turn::Counterclockwise => seq![4 * i + 3, 4 * i + 5, 4 * i + 4],
        Turn::Straight => Seq::empty(),
    }
}

/// The quads of the first `n` segments.
pub open spec fn quad_triangles(n: nat) -> Seq<int>
    decreases n,
{
    if n == 0 {
        Seq::empty()
    } else {
        quad_triangles((n - 1) as nat) + segment_triangles(n - 1)
    }
}

/// The joins at the first `turns.len()` interior points.
pub open spec fn join_triangles(turns: Seq<Turn>) -> Seq<int>
    decreases turns.len(),
{
    if turns.len() == 0 {
        Seq::empty()
    } else {
        join_triangles(turns.drop_last()) + join_triangle(turns.len() - 1, turns.last())
    }
}

/// The vertex indices of the triangles of a stroke through `point_count`
/// points that bends as `turns` says at its interior points.
pub open spec fn stroke_triangles(point_count: nat, turns: Seq<Turn>) -> Seq<int> {
    if point_count == 1 {
        heptagon_triangles()
    } else if point_count == 0 {
        Seq::empty()
    } else {
        quad_triangles((point_count - 1) as nat) + join_triangles(turns)
    }
}

/// The number of vertices of a stroke through `point_count` points: four per
/// segment, or the centre and corners of a heptagon for a single point.
pub open spec fn vertex_count(point_count: nat) -> int {
    if point_count == 1 {
        8
    } else if point_count == 0 {
        0
    } else {
        4 * (point_count - 1)
    }
}

/// Every index lies below `bound`.
pub open spec fn indices_below(s: Seq<int>, bound: int) -> bool {
    forall|j: int| 0 <= j < s.len() ==> 0 <= #[trigger] s[j] < bound
}

proof fn lemma_quads_shape(n: nat)
    ensures
        indices_below(quad_triangles(n), 4 * n as int),
        quad_triangles(n).len() == 6 * n,
    decreases n,
{
    if n > 0 {
        lemma_quads_shape((n - 1) as nat);
        let a = quad_triangles((n - 1) as nat);
        let b = segment_triangles(n - 1);
        assert forall|j: int| 0 <= j < (a + b).len() implies 0 <= #[trigger] (a + b)[j] < 4 * n by {
            if j < a.len() {
                assert((a + b)[j] == a[j]);
            } else {
                assert((a + b)[j] == b[j - a.len()]);
            }
        }
    }
}

proof fn lemma_joins_shape(turns: Seq<Turn>)
    ensures
        indices_below(join_triangles(turns), 4 * turns.len() as int + 2),
        join_triangles(turns).len() % 3 == 0,
    decreases turns.len(),
{
    if turns.len() > 0 {
        lemma_joins_shape(turns.drop_last());
        let a = join_triangles(turns.drop_last());
        let b = join_triangle(turns.len() - 1, turns.last());
        assert forall|j: int| 0 <= j < (a + b).len() implies 0 <= #[trigger] (a + b)[j] < 4 * turns.len() + 2 by {
            if j < a.len() {
                assert((a + b)[j] == a[j]);
            } else {
                assert((a + b)[j] == b[j - a.len()]);
            }
        }
    }
}

/// The triangles of a stroke name only its own vertices, three at a time.
pub proof fn lemma_stroke_triangles_shape(point_count: nat, turns: Seq<Turn>)
    requires
        turns.len() == if point_count >= 2 { point_count - 2 } else { 0 },
    ensures
        indices_below(stroke_triangles(point_count, turns), vertex_count(point_count)),
        stroke_triangles(point_count, turns).len() % 3 == 0,
{
    if point_count >= 2 {
        let n = (point_count - 1) as nat;
        lemma_quads_shape(n);
        lemma_joins_shape(turns);
        let a = quad_triangles(n);
        let b = join_triangles(turns);
        assert forall|j: int| 0 <= j < (a + b).len() implies 0 <= #[trigger] (a + b)[j] < vertex_count(point_count) by {
            if j < a.len() {
                assert((a + b)[j] == a[j]);
            } else {
                assert((a + b)[j] == b[j - a.len()]);
            }
        }
    }
}

/// The indices as integers.
pub open spec fn as_ints(s: Seq<u32>) -> Seq<int> {
    s.map_values(|x: u32| x as int)
}

proof fn lemma_as_ints_push(s: Seq<u32>, x: u32)
    ensures
        as_ints(s.push(x)) == as_ints(s).push(x as int),
{
    assert(as_ints(s.push(x)) =~= as_ints(s).push(x as int));
}

/// The vertex indices of the triangles of a stroke through `point_count`
/// points; `turns` says which way it bends at each interior point. The
/// vertices of segment `k` start at `4k`; a one-point stroke is a heptagon.
pub fn stroke_indices(point_count: usize, turns: &[Turn]) -> (r: Vec<u32>)
    requires
        turns@.len() == if point_count >= 2 { point_count - 2 } else { 0 },
        4 * point_count <= u32::MAX + 5,
    ensures
        as_ints(r@) == stroke_triangles(point_count as nat, turns@),
        indices_below(as_ints(r@), vertex_count(point_count as nat)),
        r@.len() % 3 == 0,
{
    proof {
        lemma_stroke_triangles_shape(point_count as nat, turns@);
    }
    let mut r: Vec<u32> = Vec::new();
    if point_count == 1 {
        let heptagon: [u32; 21] = [0, 1, 2, 0, 2, 3, 0, 3, 4, 0, 4, 5, 0, 5, 6, 0, 6, 7, 0, 7, 1];
        let mut i: usize = 0;
        while i < 21
            invariant
                0 <= i <= 21,
                heptagon@ == seq![0u32, 1, 2, 0, 2, 3, 0, 3, 4, 0, 4, 5, 0, 5, 6, 0, 6, 7, 0, 7, 1],
                as_ints(r@) == heptagon_triangles().take(i as int),
            decreases 21 - i,
        {
            proof {
                lemma_as_ints_push(r@, heptagon[i as int]);
                assert(heptagon_triangles().take(i + 1) =~= heptagon_triangles().take(i as int).push(heptagon[i as int] as int));
            }
            r.push(heptagon[i]);
            i += 1;
        }
        assert(heptagon_triangles().take(21) =~= heptagon_triangles());
        return r;
    }
    if point_count == 0 {
        assert(as_ints(r@) =~= Seq::<int>::empty());
        return r;
    }
    let segment_count = point_count - 1;
    let mut k: usize = 0;
    while k < segment_count
        invariant
            0 <= k <= segment_count,
            segment_count == point_count - 1,
            4 * point_count <= u32::MAX + 5,
            as_ints(r@) == quad_triangles(k as nat),
        decreases segment_count - k,
    {
        let base = (4 * k) as u32;
        let ghost before = r@;
        r.push(base);
        r.push(base + 2);
        r.push(base + 3);
        r.push(base);
        r.push(base + 3);
        r.push(base + 1);
        proof {
            assert(as_ints(r@) =~= as_ints(before) + segment_triangles(k as int));
        }
        k += 1;
    }
    let mut i: usize = 0;
    while i < turns.len()
        invariant
            0 <= i <= turns@.len(),
            turns@.len() + 1 == segment_count,
            segment_count == point_count - 1,
            4 * point_count <= u32::MAX + 5,
            as_ints(r@) == quad_triangles(segment_count as nat) + join_triangles(turns@.take(i as int)),
        decreases turns@.len() - i,
    {
        let base = (4 * i) as u32;
        let ghost before = r@;
        match turns[i] {
            Turn::Clockwise => {
                r.push(base + 2);
                r.push(base + 4);
                r.push(base + 5);
            },
            Turn::Counterclockwise => {
                r.push(base + 3);
                r.push(base + 5);
                r.push(base + 4);
            },
            Turn::Straight => {},
        }
        proof {
            assert(turns@.take(i + 1).drop_last() =~= turns@.take(i as int));
            assert(as_ints(r@) =~= as_ints(before) + join_triangle(i as int, turns@[i as int]));
        }
        i += 1;
    }
    assert(turns@.take(turns@.len() as int) =~= turns@);
    r
}

} // verus!
