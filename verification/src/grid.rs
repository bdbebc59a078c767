//! The wireframe: a grid of vertices, row by row, and the line segments that join
//! neighbours, each as a pair of vertex indices.

use vstd::prelude::*;

verus! {

/// The index of the vertex in row `d` and column `c`.
pub open spec fn vertex(cols: int, d: int, c: int) -> int {
    d * cols + c
}

/// The segments that start at a vertex: to the right, then to the next row.
pub open spec fn cell_segments(cols: int, rows: int, d: int, c: int) -> Seq<u32> {
    let i = vertex(cols, d, c);
    (if c + 1 < cols {
        seq![i as u32, (i + 1) as u32]
    } else {
        seq![]
    }) + (if d + 1 < rows {
        seq![i as u32, (i + cols) as u32]
    } else {
        seq![]
    })
}

/// The segments that start in row `d`, left of column `n`.
pub open spec fn row_segments(cols: int, rows: int, d: int, n: int) -> Seq<u32>
    decreases n,
{
    if n <= 0 {
        seq![]
    } else {
        row_segments(cols, rows, d, n - 1) + cell_segments(cols, rows, d, n - 1)
    }
}

/// The segments that start above row `m`.
pub open spec fn grid_segments(cols: int, rows: int, m: int) -> Seq<u32>
    decreases m,
{
    if m <= 0 {
        seq![]
    } else {
        grid_segments(cols, rows, m - 1) + row_segments(cols, rows, m - 1, cols)
    }
}

/// All segments of a grid.
pub open spec fn all_segments(cols: int, rows: int) -> Seq<u32> {
    grid_segments(cols, rows, rows)
}

/// The number of segments of a grid: those along the rows and those between them.
pub open spec fn segment_count(cols: int, rows: int) -> int {
    rows * (cols - 1) + (rows - 1) * cols
}

/// Vertices `a` and `b` are neighbours, `b` to the right of `a` or below it.
pub open spec fn is_edge(cols: int, rows: int, a: int, b: int) -> bool {
    exists|d: int, c: int| #[trigger] edge_at(cols, rows, d, c, a, b)
}

/// Vertex `a` stands in row `d` and column `c`, and `b` is its neighbour to the
/// right or below.
pub open spec fn edge_at(cols: int, rows: int, d: int, c: int, a: int, b: int) -> bool {
    &&& 0 <= d < rows
    &&& 0 <= c < cols
    &&& a == vertex(cols, d, c)
    &&& (c + 1 < cols && b == vertex(cols, d, c + 1)) || (d + 1 < rows && b == vertex(
        cols,
        d + 1,
        c,
    ))
}

/// The segment at position `k` of a list goes from vertex `a` to vertex `b`.
pub open spec fn joins(s: Seq<u32>, k: int, a: int, b: int) -> bool {
    &&& 0 <= k
    &&& 2 * k + 1 < s.len()
    &&& s[2 * k] == a
    &&& s[2 * k + 1] == b
}

proof fn lemma_vertex_bound(cols: int, rows: int, d: int, c: int)
    requires
        0 <= d < rows,
        0 <= c < cols,
    ensures
        0 <= vertex(cols, d, c) < cols * rows,
        d + 1 < rows ==> vertex(cols, d, c) + cols == vertex(cols, d + 1, c) < cols * rows,
        c + 1 < cols ==> vertex(cols, d, c) + 1 == vertex(cols, d, c + 1) < cols * rows,
{
    assert(0 <= d * cols) by (nonlinear_arith)
        requires
            0 <= d,
            0 < cols,
    ;
    assert((d + 1) * cols == d * cols + cols) by (nonlinear_arith);
    assert((d + 1) * cols <= cols * rows) by (nonlinear_arith)
        requires
            d + 1 <= rows,
            0 < cols,
    ;
    if d + 1 < rows {
        assert((d + 2) * cols == (d + 1) * cols + cols) by (nonlinear_arith);
        assert((d + 2) * cols <= cols * rows) by (nonlinear_arith)
            requires
                d + 2 <= rows,
                0 < cols,
        ;
    }
}

proof fn lemma_row_len(cols: int, rows: int, d: int, n: int)
    requires
        0 <= n <= cols,
    ensures
        row_segments(cols, rows, d, n).len() == 2 * (if n < cols || n == 0 {
            n
        } else {
            n - 1
        }) + (if d + 1 < rows {
            2 * n
        } else {
            0
        }),
    decreases n,
{
    if n > 0 {
        lemma_row_len(cols, rows, d, n - 1);
    }
}

proof fn lemma_grid_len(cols: int, rows: int, m: int)
    requires
        0 < cols,
        0 <= m <= rows,
    ensures
        grid_segments(cols, rows, m).len() == 2 * (m * (cols - 1)) + 2 * ((if m < rows || m == 0 {
            m
        } else {
            m - 1
        }) * cols),
    decreases m,
{
    if m > 0 {
        lemma_grid_len(cols, rows, m - 1);
        lemma_row_len(cols, rows, m - 1, cols);
        assert((m - 1) * (cols - 1) + (cols - 1) == m * (cols - 1)) by (nonlinear_arith);
        assert((m - 1) * cols + cols == m * cols) by (nonlinear_arith);
    } else {
        assert(0 * (cols - 1) == 0) by (nonlinear_arith);
        assert(0 * cols == 0) by (nonlinear_arith);
    }
}

/// The list of a grid holds as many pairs as there are segments along the rows and
/// between them.
pub proof fn segments_are_counted(cols: int, rows: int)
    requires
        0 < cols,
        0 < rows,
    ensures
        all_segments(cols, rows).len() == 2 * segment_count(cols, rows),
{
    lemma_grid_len(cols, rows, rows);
}

/// Only edges stand in a list of segments.
spec fn only_edges(cols: int, rows: int, s: Seq<u32>) -> bool {
    &&& s.len() % 2 == 0
    &&& forall|k: int|
        0 <= k && 2 * k + 1 < s.len() ==> is_edge(
            cols,
            rows,
            #[trigger] s[2 * k] as int,
            s[2 * k + 1] as int,
        )
}

proof fn lemma_only_edges_append(cols: int, rows: int, a: Seq<u32>, b: Seq<u32>)
    requires
        only_edges(cols, rows, a),
        only_edges(cols, rows, b),
    ensures
        only_edges(cols, rows, a + b),
{
    let s = a + b;
    assert forall|k: int| 0 <= k && 2 * k + 1 < s.len() implies is_edge(
        cols,
        rows,
        #[trigger] s[2 * k] as int,
        s[2 * k + 1] as int,
    ) by {
        if 2 * k < a.len() {
            assert(s[2 * k] == a[2 * k]);
            assert(s[2 * k + 1] == a[2 * k + 1]);
        } else {
            let h = a.len() as int / 2;
            assert(s[2 * k] == b[2 * (k - h)]);
            assert(s[2 * k + 1] == b[2 * (k - h) + 1]);
        }
    }
}

proof fn lemma_cell_only_edges(cols: int, rows: int, d: int, c: int)
    requires
        0 <= d < rows,
        0 <= c < cols,
        cols * rows <= u32::MAX,
    ensures
        only_edges(cols, rows, cell_segments(cols, rows, d, c)),
{
    lemma_vertex_bound(cols, rows, d, c);
    let s = cell_segments(cols, rows, d, c);
    assert forall|k: int| 0 <= k && 2 * k + 1 < s.len() implies is_edge(
        cols,
        rows,
        #[trigger] s[2 * k] as int,
        s[2 * k + 1] as int,
    ) by {
        assert(edge_at(cols, rows, d, c, s[2 * k] as int, s[2 * k + 1] as int));
    }
}

proof fn lemma_row_only_edges(cols: int, rows: int, d: int, n: int)
    requires
        0 <= d < rows,
        0 <= n <= cols,
        cols * rows <= u32::MAX,
    ensures
        only_edges(cols, rows, row_segments(cols, rows, d, n)),
    decreases n,
{
    if n > 0 {
        lemma_row_only_edges(cols, rows, d, n - 1);
        lemma_cell_only_edges(cols, rows, d, n - 1);
        lemma_only_edges_append(
            cols,
            rows,
            row_segments(cols, rows, d, n - 1),
            cell_segments(cols, rows, d, n - 1),
        );
    }
}

proof fn lemma_grid_only_edges(cols: int, rows: int, m: int)
    requires
        0 < cols,
        0 <= m <= rows,
        cols * rows <= u32::MAX,
    ensures
        only_edges(cols, rows, grid_segments(cols, rows, m)),
    decreases m,
{
    if m > 0 {
        lemma_grid_only_edges(cols, rows, m - 1);
        lemma_row_only_edges(cols, rows, m - 1, cols);
        lemma_only_edges_append(
            cols,
            rows,
            grid_segments(cols, rows, m - 1),
            row_segments(cols, rows, m - 1, cols),
        );
    }
}

/// Every segment of a grid joins two neighbours, and both ends are vertices of
/// the grid.
pub proof fn segments_join_neighbours(cols: int, rows: int, k: int)
    requires
        0 < cols,
        0 < rows,
        cols * rows <= u32::MAX,
        0 <= k < segment_count(cols, rows),
    ensures
        ({
            let s = all_segments(cols, rows);
            &&& is_edge(cols, rows, s[2 * k] as int, s[2 * k + 1] as int)
            &&& s[2 * k] < cols * rows
            &&& s[2 * k + 1] < cols * rows
        }),
{
    segments_are_counted(cols, rows);
    lemma_grid_only_edges(cols, rows, rows);
    let s = all_segments(cols, rows);
    let (a, b) = (s[2 * k] as int, s[2 * k + 1] as int);
    assert(is_edge(cols, rows, a, b));
    let (d, c) = choose|d: int, c: int| #[trigger] edge_at(cols, rows, d, c, a, b);
    lemma_vertex_bound(cols, rows, d, c);
}

proof fn lemma_joins_left(a: Seq<u32>, b: Seq<u32>, k: int, x: int, y: int)
    requires
        joins(a, k, x, y),
    ensures
        joins(a + b, k, x, y),
{
}

proof fn lemma_joins_right(a: Seq<u32>, b: Seq<u32>, k: int, x: int, y: int)
    requires
        a.len() % 2 == 0,
        joins(b, k, x, y),
    ensures
        joins(a + b, k + a.len() as int / 2, x, y),
{
    let h = a.len() as int / 2;
    assert((a + b)[2 * (k + h)] == b[2 * k]);
    assert((a + b)[2 * (k + h) + 1] == b[2 * k + 1]);
}

proof fn lemma_row_has_edge(cols: int, rows: int, d: int, n: int, c: int, b: int) -> (k: int)
    requires
        0 <= c < n <= cols,
        edge_at(cols, rows, d, c, vertex(cols, d, c), b),
        cols * rows <= u32::MAX,
    ensures
        joins(row_segments(cols, rows, d, n), k, vertex(cols, d, c), b),
    decreases n,
{
    let a = vertex(cols, d, c);
    let front = row_segments(cols, rows, d, n - 1);
    let cell = cell_segments(cols, rows, d, n - 1);
    if c < n - 1 {
        let k = lemma_row_has_edge(cols, rows, d, n - 1, c, b);
        lemma_joins_left(front, cell, k, a, b);
        k
    } else {
        lemma_vertex_bound(cols, rows, d, c);
        lemma_row_only_edges(cols, rows, d, n - 1);
        let j: int = if c + 1 < cols && b == vertex(cols, d, c + 1) {
            0
        } else if c + 1 < cols {
            1
        } else {
            0
        };
        assert(joins(cell, j, a, b));
        lemma_joins_right(front, cell, j, a, b);
        j + front.len() as int / 2
    }
}

proof fn lemma_grid_has_edge(cols: int, rows: int, m: int, d: int, c: int, b: int) -> (k: int)
    requires
        0 <= d < m <= rows,
        edge_at(cols, rows, d, c, vertex(cols, d, c), b),
        cols * rows <= u32::MAX,
    ensures
        joins(grid_segments(cols, rows, m), k, vertex(cols, d, c), b),
    decreases m,
{
    let a = vertex(cols, d, c);
    let front = grid_segments(cols, rows, m - 1);
    let row = row_segments(cols, rows, m - 1, cols);
    if d < m - 1 {
        let k = lemma_grid_has_edge(cols, rows, m - 1, d, c, b);
        lemma_joins_left(front, row, k, a, b);
        k
    } else {
        let j = lemma_row_has_edge(cols, rows, d, cols, c, b);
        lemma_grid_only_edges(cols, rows, m - 1);
        lemma_joins_right(front, row, j, a, b);
        j + front.len() as int / 2
    }
}

/// Every two neighbours of a grid are joined by a segment.
pub proof fn neighbours_are_joined(cols: int, rows: int, a: int, b: int)
    requires
        cols * rows <= u32::MAX,
        is_edge(cols, rows, a, b),
    ensures
        exists|k: int| #[trigger] joins(all_segments(cols, rows), k, a, b),
{
    let (d, c) = choose|d: int, c: int| #[trigger] edge_at(cols, rows, d, c, a, b);
    let k = lemma_grid_has_edge(cols, rows, rows, d, c, b);
    assert(joins(all_segments(cols, rows), k, a, b));
}

/// The pair of indices at position `k` of a list of segments.
pub open spec fn pair(s: Seq<u32>, k: int) -> (int, int) {
    (s[2 * k] as int, s[2 * k + 1] as int)
}

/// Pair `p` comes before pair `q`: by the first index, then by the second.
pub open spec fn precedes(p: (int, int), q: (int, int)) -> bool {
    p.0 < q.0 || (p.0 == q.0 && p.1 < q.1)
}

/// The pairs of a list of segments rise, and their first indices lie from `lo` on
/// and below `hi`.
spec fn rising(s: Seq<u32>, lo: int, hi: int) -> bool {
    &&& s.len() % 2 == 0
    &&& forall|k: int|
        0 <= k && 2 * k + 1 < s.len() ==> lo <= (#[trigger] pair(s, k)).0 < hi
    &&& forall|k: int, l: int|
        0 <= k < l && 2 * l + 1 < s.len() ==> precedes(#[trigger] pair(s, k), #[trigger] pair(s, l))
}

proof fn lemma_rising_append(a: Seq<u32>, b: Seq<u32>, lo: int, mid: int, hi: int)
    requires
        rising(a, lo, mid),
        rising(b, mid, hi),
        lo <= mid <= hi,
    ensures
        rising(a + b, lo, hi),
{
    let s = a + b;
    let h = a.len() as int / 2;
    assert forall|k: int| 0 <= k && 2 * k + 1 < s.len() implies #[trigger] pair(s, k) == (if k < h {
        pair(a, k)
    } else {
        pair(b, k - h)
    }) by {}
}

proof fn lemma_row_rising(cols: int, rows: int, d: int, n: int)
    requires
        0 <= d < rows,
        0 <= n <= cols,
        cols * rows <= u32::MAX,
    ensures
        rising(row_segments(cols, rows, d, n), d * cols, d * cols + n),
    decreases n,
{
    if n > 0 {
        lemma_row_rising(cols, rows, d, n - 1);
        lemma_vertex_bound(cols, rows, d, n - 1);
        let cell = cell_segments(cols, rows, d, n - 1);
        assert(rising(cell, d * cols + n - 1, d * cols + n));
        lemma_rising_append(
            row_segments(cols, rows, d, n - 1),
            cell,
            d * cols,
            d * cols + n - 1,
            d * cols + n,
        );
    }
}

proof fn lemma_grid_rising(cols: int, rows: int, m: int)
    requires
        0 < cols,
        0 <= m <= rows,
        cols * rows <= u32::MAX,
    ensures
        rising(grid_segments(cols, rows, m), 0, m * cols),
    decreases m,
{
    if m > 0 {
        lemma_grid_rising(cols, rows, m - 1);
        lemma_row_rising(cols, rows, m - 1, cols);
        lemma_vertex_bound(cols, rows, m - 1, 0);
        assert((m - 1) * cols + cols == m * cols) by (nonlinear_arith);
        lemma_rising_append(
            grid_segments(cols, rows, m - 1),
            row_segments(cols, rows, m - 1, cols),
            0,
            (m - 1) * cols,
            m * cols,
        );
    }
}

/// No segment of a grid is listed twice: the pairs of the list rise, by the first
/// index and then by the second.
pub proof fn no_segment_is_listed_twice(cols: int, rows: int, k: int, l: int)
    requires
        0 < cols,
        0 < rows,
        cols * rows <= u32::MAX,
        0 <= k < l < segment_count(cols, rows),
    ensures
        precedes(pair(all_segments(cols, rows), k), pair(all_segments(cols, rows), l)),
        pair(all_segments(cols, rows), k) != pair(all_segments(cols, rows), l),
{
    segments_are_counted(cols, rows);
    lemma_grid_rising(cols, rows, rows);
}

/// Lists the segments of a grid.
pub fn segments(cols: u32, rows: u32) -> (r: Vec<u32>)
    requires
        cols * rows <= u32::MAX,
    ensures
        r@ == all_segments(cols as int, rows as int),
{
    let mut out: Vec<u32> = Vec::new();
    let mut d: u32 = 0;
    while d < rows
        invariant
            d <= rows,
            cols * rows <= u32::MAX,
            out@ == grid_segments(cols as int, rows as int, d as int),
        decreases rows - d,
    {
        let mut c: u32 = 0;
        let ghost before = out@;
        assert(before + row_segments(cols as int, rows as int, d as int, 0) =~= before);
        while c < cols
            invariant
                c <= cols,
                d < rows,
                cols * rows <= u32::MAX,
                out@ == before + row_segments(cols as int, rows as int, d as int, c as int),
            decreases cols - c,
        {
            proof {
                lemma_vertex_bound(cols as int, rows as int, d as int, c as int);
                lemma_vertex_bound(cols as int, rows as int, d as int, 0);
            }
            let ghost so_far = out@;
            let i: u32 = d * cols + c;
            if c + 1 < cols {
                out.push(i);
                out.push(i + 1);
            }
            if d + 1 < rows {
                out.push(i);
                out.push(i + cols);
            }
            assert(out@ =~= so_far + cell_segments(cols as int, rows as int, d as int, c as int));
            c = c + 1;
            assert(out@ =~= before + row_segments(cols as int, rows as int, d as int, c as int));
        }
        d = d + 1;
    }
    out
}

proof fn lemma_empty_grid(cols: int, rows: int, m: int)
    requires
        cols <= 0 || m <= 0,
    ensures
        grid_segments(cols, rows, m).len() == 0,
    decreases m,
{
    if m > 0 {
        lemma_empty_grid(cols, rows, m - 1);
    }
}

/// A grid without columns or without rows has no segments.
pub proof fn an_empty_grid_has_no_segments(cols: u32, rows: u32, r: Vec<u32>)
    requires
        cols == 0 || rows == 0,
        call_ensures(segments, (cols, rows), r),
    ensures
        r@.len() == 0,
{
    lemma_empty_grid(cols as int, rows as int, rows as int);
}

/// The list holds a pair for each segment along a row and between two rows. Each
/// pair goes from a vertex to the next one of the same row, or to the one below it.
pub proof fn listed_pairs_go_right_or_down(cols: u32, rows: u32, r: Vec<u32>, k: int)
    requires
        0 < cols,
        0 < rows,
        cols * rows <= u32::MAX,
        call_ensures(segments, (cols, rows), r),
    ensures
        r@.len() == 2 * (rows * (cols - 1) + (rows - 1) * cols),
        0 <= k && 2 * k + 1 < r@.len() ==> {
            &&& r@[2 * k + 1] < cols * rows
            &&& r@[2 * k + 1] == r@[2 * k] + cols || (r@[2 * k + 1] == r@[2 * k] + 1 && r@[2 * k
                + 1] as int % cols as int != 0)
        },
{
    let (m, n) = (cols as int, rows as int);
    segments_are_counted(m, n);
    if 0 <= k && 2 * k + 1 < r@.len() {
        segments_join_neighbours(m, n, k);
        let (a, b) = (r@[2 * k] as int, r@[2 * k + 1] as int);
        let (d, c) = choose|d: int, c: int| #[trigger] edge_at(m, n, d, c, a, b);
        assert(edge_at(m, n, d, c, a, b));
        lemma_vertex_bound(m, n, d, c);
        if c + 1 < m && b == vertex(m, d, c + 1) {
            vstd::arithmetic::div_mod::lemma_fundamental_div_mod_converse(b, m, d, c + 1);
        }
    }
}

/// From every vertex a segment goes to the next one of the same row and to the one
/// below it, where there are such.
pub proof fn every_neighbour_is_reached(cols: u32, rows: u32, r: Vec<u32>, a: int)
    requires
        0 < cols,
        0 < rows,
        cols * rows <= u32::MAX,
        call_ensures(segments, (cols, rows), r),
        0 <= a < cols * rows,
    ensures
        (a + 1) % cols as int != 0 ==> exists|k: int|
            0 <= k && 2 * k + 1 < r@.len() && #[trigger] r@[2 * k] == a && r@[2 * k + 1] == a + 1,
        a + cols < cols * rows ==> exists|k: int|
            0 <= k && 2 * k + 1 < r@.len() && #[trigger] r@[2 * k] == a && r@[2 * k + 1] == a
                + cols,
{
    let (m, n) = (cols as int, rows as int);
    let d = a / m;
    let c = a % m;
    vstd::arithmetic::div_mod::lemma_fundamental_div_mod(a, m);
    vstd::arithmetic::div_mod::lemma_mod_bound(a, m);
    assert(m * d == d * m) by (nonlinear_arith);
    assert(0 <= d < n) by (nonlinear_arith)
        requires
            a == m * d + c,
            0 <= c < m,
            0 <= a < m * n,
    ;
    lemma_vertex_bound(m, n, d, c);
    if (a + 1) % m != 0 {
        if c + 1 == m {
            assert((d + 1) * m == d * m + m) by (nonlinear_arith);
            vstd::arithmetic::div_mod::lemma_fundamental_div_mod_converse(a + 1, m, d + 1, 0);
        }
        assert(edge_at(m, n, d, c, a, a + 1));
        neighbours_are_joined(m, n, a, a + 1);
        let k = choose|k: int| #[trigger] joins(all_segments(m, n), k, a, a + 1);
        assert(r@[2 * k] == a);
    }
    if a + m < m * n {
        assert(d + 1 < n) by (nonlinear_arith)
            requires
                a == m * d + c,
                0 <= c,
                a + m < m * n,
                0 < m,
        ;
        assert(edge_at(m, n, d, c, a, a + m));
        neighbours_are_joined(m, n, a, a + m);
        let k = choose|k: int| #[trigger] joins(all_segments(m, n), k, a, a + m);
        assert(r@[2 * k] == a);
    }
}

/// The pairs of the list rise, so that none is there twice.
pub proof fn listed_pairs_rise(cols: u32, rows: u32, r: Vec<u32>, k: int, l: int)
    requires
        0 < cols,
        0 < rows,
        cols * rows <= u32::MAX,
        call_ensures(segments, (cols, rows), r),
        0 <= k < l,
        2 * l + 1 < r@.len(),
    ensures
        r@[2 * k] < r@[2 * l] || (r@[2 * k] == r@[2 * l] && r@[2 * k + 1] < r@[2 * l + 1]),
{
    segments_are_counted(cols as int, rows as int);
    no_segment_is_listed_twice(cols as int, rows as int, k, l);
}

} // verus!
