use vstd::prelude::*;

verus! {

/// A drawable segment between two points.
pub struct Line<P> {
    pub a: P,
    pub b: P,
}

impl<P> Line<P> {
    pub fn new(a: P, b: P) -> (r: Self)
        ensures
            r.a == a,
            r.b == b,
    {
        Line { a, b }
    }
}

/// The lines of a scene with both endpoints present, in order.
pub open spec fn complete_lines<Q>(s: Seq<Line<Option<Q>>>) -> Seq<Line<Q>>
    decreases s.len(),
{
    if s.len() == 0 {
        Seq::empty()
    } else {
        let rest = complete_lines(s.drop_last());
        let l = s.last();
        if l.a is Some && l.b is Some {
            rest.push(Line { a: l.a->Some_0, b: l.b->Some_0 })
        } else {
            rest
        }
    }
}

/// An ordered collection of lines together with their count.
pub struct Scene<P> {
    pub num_lines: usize,
    pub lines: Vec<Line<P>>,
}

impl<P> Scene<P> {
    /// The count agrees with the lines held.
    pub open spec fn wf(&self) -> bool {
        self.num_lines == self.lines@.len()
    }

    /// A scene without lines.
    pub fn new() -> (r: Self)
        ensures
            r.wf(),
            r.lines@.len() == 0,
    {
        Scene { num_lines: 0, lines: Vec::new() }
    }

    /// The scene that holds `lines`, counted.
    pub fn from_lines(lines: Vec<Line<P>>) -> (r: Self)
        ensures
            r.wf(),
            r.lines@ == lines@,
    {
        Scene { num_lines: lines.len(), lines }
    }

    /// Appends `line` at the end.
    pub fn push_line(&mut self, line: Line<P>)
        requires
            old(self).wf(),
            old(self).lines@.len() < usize::MAX,
        ensures
            final(self).wf(),
            final(self).lines@ == old(self).lines@.push(line),
    {
        self.lines.push(line);
        self.num_lines = self.num_lines + 1;
    }
}

impl<P: Copy> Scene<P> {
    /// The scene whose lines have `f` applied to both endpoints, in order.
    pub fn map_points<Q, F: Fn(P) -> Q>(&self, f: F) -> (r: Scene<Q>)
        requires
            forall|p: P| #[trigger] f.requires((p,)),
        ensures
            r.wf(),
            r.lines@.len() == self.lines@.len(),
            forall|k: int|
                0 <= k < self.lines@.len() ==> f.ensures((self.lines@[k].a,), #[trigger] r.lines@[k].a)
                    && f.ensures((self.lines@[k].b,), r.lines@[k].b),
    {
        let n: usize = self.lines.len();
        let mut lines: Vec<Line<Q>> = Vec::with_capacity(n);
        let mut k: usize = 0;
        while k < n
            invariant
                k <= n,
                n == self.lines@.len(),
                lines@.len() == k,
                forall|p: P| #[trigger] f.requires((p,)),
                forall|i: int|
                    0 <= i < k ==> f.ensures((self.lines@[i].a,), #[trigger] lines@[i].a)
                        && f.ensures((self.lines@[i].b,), lines@[i].b),
            decreases n - k,
        {
            let line = &self.lines[k];
            let a = f(line.a);
            let b = f(line.b);
            lines.push(Line { a, b });
            k = k + 1;
        }
        Scene { num_lines: n, lines }
    }
}

impl<Q: Copy> Scene<Option<Q>> {
    /// The lines whose two endpoints are both present, in order; the others
    /// are left out.
    pub fn keep_complete(&self) -> (r: Scene<Q>)
        ensures
            r.wf(),
            r.lines@ == complete_lines(self.lines@),
    {
        let n: usize = self.lines.len();
        let mut lines: Vec<Line<Q>> = Vec::new();
        let mut k: usize = 0;
        while k < n
            invariant
                k <= n,
                n == self.lines@.len(),
                lines@ == complete_lines(self.lines@.take(k as int)),
                lines@.len() <= k,
            decreases n - k,
        {
            proof {
                assert(self.lines@.take(k + 1).drop_last() =~= self.lines@.take(k as int));
            }
            let line = &self.lines[k];
            match (line.a, line.b) {
                (Some(a), Some(b)) => {
                    lines.push(Line { a, b });
                },
                _ => {},
            }
            k = k + 1;
        }
        assert(self.lines@.take(n as int) =~= self.lines@);
        Scene { num_lines: lines.len(), lines }
    }
}

/// The lines that `edges` draw between `points`: one per edge, in order.
pub open spec fn lines_of<P>(points: Seq<P>, edges: Seq<(usize, usize)>) -> Seq<Line<P>> {
    Seq::new(edges.len(), |k: int| Line { a: points[edges[k].0 as int], b: points[edges[k].1 as int] })
}

/// Every edge joins two of `n` points.
pub open spec fn edges_within(edges: Seq<(usize, usize)>, n: nat) -> bool {
    forall|k: int| 0 <= k < edges.len() ==> (#[trigger] edges[k]).0 < n && edges[k].1 < n
}

/// The points of a solid and the edges that join them, as pairs of indices
/// into the points.
pub struct Wireframe<P> {
    points: Vec<P>,
    edges: Vec<(usize, usize)>,
}

impl<P> Wireframe<P> {
    pub closed spec fn points_spec(&self) -> Seq<P> {
        self.points@
    }

    pub closed spec fn edges_spec(&self) -> Seq<(usize, usize)> {
        self.edges@
    }

    /// Every edge refers to points of the solid.
    pub open spec fn wf(&self) -> bool {
        edges_within(self.edges_spec(), self.points_spec().len())
    }

    /// The solid with these points and edges; `None` when an edge refers past
    /// the points.
    pub fn new(points: Vec<P>, edges: Vec<(usize, usize)>) -> (r: Option<Self>)
        ensures
            r is Some <==> edges_within(edges@, points@.len()),
            r matches Some(w) ==> w.wf() && w.points_spec() == points@ && w.edges_spec()
                == edges@,
    {
        let n: usize = points.len();
        let mut k: usize = 0;
        while k < edges.len()
            invariant
                k <= edges@.len(),
                n == points@.len(),
                edges_within(edges@.take(k as int), n as nat),
            decreases edges@.len() - k,
        {
            let (a, b) = edges[k];
            if a >= n || b >= n {
                assert(!edges_within(edges@, n as nat)) by {
                    assert(edges@[k as int] == (a, b));
                }
                return None;
            }
            proof {
                assert forall|i: int| 0 <= i < k + 1 implies (#[trigger] edges@.take(k + 1)[i]).0
                    < n && edges@.take(k + 1)[i].1 < n by {
                    if i < k {
                        assert(edges@.take(k + 1)[i] == edges@.take(k as int)[i]);
                    }
                }
            }
            k = k + 1;
        }
        assert(edges@.take(edges@.len() as int) =~= edges@);
        Some(Wireframe { points, edges })
    }
}

impl<P: Copy> Wireframe<P> {
    /// One line per edge, in order, between the two points that it joins.
    pub fn get_lines(&self) -> (r: Vec<Line<P>>)
        requires
            self.wf(),
        ensures
            r@ == lines_of(self.points_spec(), self.edges_spec()),
    {
        let n: usize = self.edges.len();
        let mut lines: Vec<Line<P>> = Vec::with_capacity(n);
        let mut k: usize = 0;
        while k < n
            invariant
                self.wf(),
                k <= n,
                n == self.edges@.len(),
                lines@ == lines_of(self.points@, self.edges@).take(k as int),
            decreases n - k,
        {
            let (a, b) = self.edges[k];
            assert(self.edges@[k as int] == (a, b));
            lines.push(Line { a: self.points[a], b: self.points[b] });
            k = k + 1;
            assert(lines@ =~= lines_of(self.points@, self.edges@).take(k as int));
        }
        assert(lines@ =~= lines_of(self.points@, self.edges@));
        lines
    }
}

/// Which end of the side each coordinate of a corner takes: `false` for the
/// near end (the offset), `true` for the far end (offset plus side length).
#[derive(Clone, Copy)]
pub struct Corner {
    pub x: bool,
    pub y: bool,
    pub z: bool,
}

/// The corners of a cube: the bottom face counter-clockwise from the near
/// corner, then the top face in the same order.
pub open spec fn cube_corner_seq() -> Seq<Corner> {
    seq![
        Corner { x: false, y: false, z: false },
        Corner { x: true, y: false, z: false },
        Corner { x: true, y: true, z: false },
        Corner { x: false, y: true, z: false },
        Corner { x: false, y: false, z: true },
        Corner { x: true, y: false, z: true },
        Corner { x: true, y: true, z: true },
        Corner { x: false, y: true, z: true },
    ]
}

/// The corners of a square in the plane `z = 0`, counter-clockwise from the
/// near corner.
pub open spec fn square_corner_seq() -> Seq<Corner> {
    seq![
        Corner { x: false, y: false, z: false },
        Corner { x: true, y: false, z: false },
        Corner { x: true, y: true, z: false },
        Corner { x: false, y: true, z: false },
    ]
}

/// Edge `k` of a cube: for each `i` below 4, first the vertical edge from
/// bottom corner `i`, then the bottom edge from `i` to the next corner, then
/// the top edge above it.
pub open spec fn cube_edge(k: int) -> (usize, usize) {
    let i = k / 3;
    let next = (i + 1) % 4;
    if k % 3 == 0 {
        (i as usize, (i + 4) as usize)
    } else if k % 3 == 1 {
        (i as usize, next as usize)
    } else {
        ((i + 4) as usize, (next + 4) as usize)
    }
}

pub open spec fn cube_edge_seq() -> Seq<(usize, usize)> {
    Seq::new(12, |k: int| cube_edge(k))
}

/// Edge `k` of a square: from corner `k` to the next one round the square.
pub open spec fn square_edge_seq() -> Seq<(usize, usize)> {
    Seq::new(4, |k: int| (k as usize, ((k + 1) % 4) as usize))
}

pub fn cube_corners() -> (r: Vec<Corner>)
    ensures
        r@ == cube_corner_seq(),
{
    let r = vec![
        Corner { x: false, y: false, z: false },
        Corner { x: true, y: false, z: false },
        Corner { x: true, y: true, z: false },
        Corner { x: false, y: true, z: false },
        Corner { x: false, y: false, z: true },
        Corner { x: true, y: false, z: true },
        Corner { x: true, y: true, z: true },
        Corner { x: false, y: true, z: true },
    ];
    assert(r@ =~= cube_corner_seq());
    r
}

pub fn square_corners() -> (r: Vec<Corner>)
    ensures
        r@ == square_corner_seq(),
{
    let r = vec![
        Corner { x: false, y: false, z: false },
        Corner { x: true, y: false, z: false },
        Corner { x: true, y: true, z: false },
        Corner { x: false, y: true, z: false },
    ];
    assert(r@ =~= square_corner_seq());
    r
}

pub fn cube_edges() -> (r: Vec<(usize, usize)>)
    ensures
        r@ == cube_edge_seq(),
{
    let mut edges: Vec<(usize, usize)> = Vec::with_capacity(12);
    let mut i: usize = 0;
    while i < 4
        invariant
            i <= 4,
            edges@ == cube_edge_seq().take(3 * i),
        decreases 4 - i,
    {
        let next: usize = (i + 1) % 4;
        edges.push((i, i + 4));
        edges.push((i, next));
        edges.push((i + 4, next + 4));
        proof {
            assert(cube_edge(3 * i) == (i, (i + 4) as usize));
            assert(cube_edge(3 * i + 1) == (i, next));
            assert(cube_edge(3 * i + 2) == ((i + 4) as usize, (next + 4) as usize));
        }
        i = i + 1;
        assert(edges@ =~= cube_edge_seq().take(3 * i));
    }
    assert(edges@ =~= cube_edge_seq());
    edges
}

pub fn square_edges() -> (r: Vec<(usize, usize)>)
    ensures
        r@ == square_edge_seq(),
{
    let mut edges: Vec<(usize, usize)> = Vec::with_capacity(4);
    let mut i: usize = 0;
    while i < 4
        invariant
            i <= 4,
            edges@ == square_edge_seq().take(i as int),
        decreases 4 - i,
    {
        edges.push((i, (i + 1) % 4));
        i = i + 1;
        assert(edges@ =~= square_edge_seq().take(i as int));
    }
    assert(edges@ =~= square_edge_seq());
    edges
}

/// The edges of a cube join its eight corners: twelve lines, for each `i`
/// below 4 a vertical one from bottom corner `i` to top corner `i + 4`, a
/// bottom one from `i` to the next bottom corner and a top one above it.
pub proof fn lemma_cube_lines<P>(points: Seq<P>)
    requires
        points.len() == 8,
    ensures
        edges_within(cube_edge_seq(), 8),
        lines_of(points, cube_edge_seq()).len() == 12,
        forall|i: int|
            #![trigger lines_of(points, cube_edge_seq())[3 * i]]
            0 <= i < 4 ==> {
                &&& lines_of(points, cube_edge_seq())[3 * i] == (Line { a: points[i], b: points[i + 4] })
                &&& lines_of(points, cube_edge_seq())[3 * i + 1] == (Line {
                    a: points[i],
                    b: points[(i + 1) % 4],
                })
                &&& lines_of(points, cube_edge_seq())[3 * i + 2] == (Line {
                    a: points[i + 4],
                    b: points[(i + 1) % 4 + 4],
                })
            },
{
    assert forall|k: int| 0 <= k < 12 implies (#[trigger] cube_edge_seq()[k]).0 < 8
        && cube_edge_seq()[k].1 < 8 by {
        assert(0 <= k / 3 < 4);
    }
    assert forall|i: int|
        #![trigger lines_of(points, cube_edge_seq())[3 * i]]
        0 <= i < 4 implies {
        &&& lines_of(points, cube_edge_seq())[3 * i] == (Line { a: points[i], b: points[i + 4] })
        &&& lines_of(points, cube_edge_seq())[3 * i + 1] == (Line {
            a: points[i],
            b: points[(i + 1) % 4],
        })
        &&& lines_of(points, cube_edge_seq())[3 * i + 2] == (Line {
            a: points[i + 4],
            b: points[(i + 1) % 4 + 4],
        })
    } by {
        assert((3 * i) / 3 == i && (3 * i) % 3 == 0);
        assert((3 * i + 1) / 3 == i && (3 * i + 1) % 3 == 1);
        assert((3 * i + 2) / 3 == i && (3 * i + 2) % 3 == 2);
    }
}

/// Both ends of the edge are on the bottom face (corners 0 to 3).
pub open spec fn is_bottom_edge(e: (usize, usize)) -> bool {
    e.0 < 4 && e.1 < 4
}

/// Both ends of the edge are on the top face (corners 4 to 7).
pub open spec fn is_top_edge(e: (usize, usize)) -> bool {
    4 <= e.0 < 8 && 4 <= e.1 < 8
}

/// The edge rises from a bottom corner to the top corner above it.
pub open spec fn is_vertical_edge(e: (usize, usize)) -> bool {
    e.0 < 4 && e.1 == e.0 + 4
}

/// The two edges join the same two corners, in either direction.
pub open spec fn same_corners(e: (usize, usize), f: (usize, usize)) -> bool {
    (e.0 == f.0 && e.1 == f.1) || (e.0 == f.1 && e.1 == f.0)
}

/// Of the twelve edges of a cube, exactly the four at positions `3i + 1` lie
/// on the bottom face, exactly the four at `3i + 2` on the top face and
/// exactly the four at `3i` are vertical; no two edges join the same corners.
pub proof fn lemma_cube_edge_kinds()
    ensures
        cube_edge_seq().len() == 12,
        forall|k: int|
            0 <= k < 12 ==> (is_bottom_edge(#[trigger] cube_edge_seq()[k]) <==> k % 3 == 1) && (
            is_top_edge(cube_edge_seq()[k]) <==> k % 3 == 2) && (is_vertical_edge(
                cube_edge_seq()[k],
            ) <==> k % 3 == 0),
        forall|k: int, l: int|
            0 <= k < 12 && 0 <= l < 12 && k != l ==> !same_corners(
                #[trigger] cube_edge_seq()[k],
                #[trigger] cube_edge_seq()[l],
            ),
{
    assert forall|k: int, l: int|
        0 <= k < 12 && 0 <= l < 12 && k != l implies !same_corners(
        #[trigger] cube_edge_seq()[k],
        #[trigger] cube_edge_seq()[l],
    ) by {
        assert(0 <= k / 3 < 4 && 0 <= l / 3 < 4);
        assert(k == 3 * (k / 3) + k % 3 && l == 3 * (l / 3) + l % 3);
    }
}

/// The edges of a square join its four corners round the square: four lines,
/// line `i` from corner `i` to the next one.
pub proof fn lemma_square_lines<P>(points: Seq<P>)
    requires
        points.len() == 4,
    ensures
        edges_within(square_edge_seq(), 4),
        lines_of(points, square_edge_seq()).len() == 4,
        forall|i: int|
            0 <= i < 4 ==> #[trigger] lines_of(points, square_edge_seq())[i] == (Line {
                a: points[i],
                b: points[(i + 1) % 4],
            }),
{
}

} // verus!
