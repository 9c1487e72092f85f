use vstd::prelude::*;
use crate::cell::Cell;

verus! {

#[verifier::external_type_specification]
#[verifier::external_body]
#[verifier::reject_recursive_types(T)]
pub struct ExArray2D<T>(array2d::Array2D<T>);

/// What an `array2d::Array2D<bool>` holds: the element stored at each
/// (row, column) pair.
pub uninterp spec fn array2d_elems(a: array2d::Array2D<bool>) -> Map<(int, int), bool>;

/// The (rows, columns) dimensions an `array2d::Array2D<bool>` was created
/// with; `array2d` keeps them fixed for the array's lifetime.
pub uninterp spec fn array2d_dims(a: array2d::Array2D<bool>) -> (int, int);

/// Relies on array2d::Array2D::filled_with: a `rows` by `cols` array with
/// every element equal to `value`, stored row-major in a `Vec` of length
/// `rows * cols` (whose computation must not overflow).
#[verifier::external_body]
fn array2d_filled(value: bool, rows: usize, cols: usize) -> (r: array2d::Array2D<bool>)
    requires
        rows * cols <= usize::MAX,
    ensures
        array2d_dims(r) == (rows as int, cols as int),
        forall|x: int, y: int|
            0 <= x < rows && 0 <= y < cols ==> array2d_elems(r)[(x, y)] == value,
{
    array2d::Array2D::filled_with(value, rows, cols)
}

/// Relies on array2d::Array2D::get: returns `Some` of the element at
/// (row, column) whenever both indices are within the array's dimensions.
#[verifier::external_body]
fn array2d_get(a: &array2d::Array2D<bool>, x: usize, y: usize) -> (r: bool)
    requires
        x < array2d_dims(*a).0,
        y < array2d_dims(*a).1,
    ensures
        r == array2d_elems(*a)[(x as int, y as int)],
{
    *a.get(x, y).unwrap()
}

/// Relies on array2d::Array2D::set: replaces the element at (row, column) and
/// returns `Ok` whenever both indices are within the array's dimensions; the
/// dimensions themselves never change.
#[verifier::external_body]
fn array2d_set(a: &mut array2d::Array2D<bool>, x: usize, y: usize, value: bool)
    requires
        x < array2d_dims(*old(a)).0,
        y < array2d_dims(*old(a)).1,
    ensures
        array2d_dims(*final(a)) == array2d_dims(*old(a)),
        array2d_elems(*final(a)) == array2d_elems(*old(a)).insert((x as int, y as int), value),
{
    let _ = a.set(x, y, value);
}

/// Whether coordinate pair `k` lies inside a `w` by `h` grid.
pub open spec fn key_in_bounds(k: (int, int), w: int, h: int) -> bool {
    0 <= k.0 < w && 0 <= k.1 < h
}

/// Whether row `y` of occupancy map `m` is fully occupied across width `w`.
pub open spec fn spec_row_full(m: Map<(int, int), bool>, w: int, y: int) -> bool {
    forall|x: int| 0 <= x < w ==> m[(x, y)]
}

/// The occupancy map after clearing row `y` and collapsing: each row from 1
/// through `y` takes the previous contents of the row above it, the top row
/// becomes empty, and rows below `y` are unchanged.
pub open spec fn spec_collapse_one(m: Map<(int, int), bool>, w: int, h: int, y: int) -> Map<
    (int, int),
    bool,
> {
    Map::total(
        |k: (int, int)|
            key_in_bounds(k, w, h) && (if k.1 == 0 {
                false
            } else if k.1 <= y {
                m[(k.0, k.1 - 1)]
            } else {
                m[k]
            }),
    )
}

/// The ascending list of fully occupied row indices below `h`.
pub open spec fn spec_full_rows(m: Map<(int, int), bool>, w: int, h: int) -> Seq<int>
    decreases h,
{
    if h <= 0 {
        Seq::empty()
    } else {
        spec_full_rows(m, w, h - 1) + (if spec_row_full(m, w, h - 1) {
            seq![h - 1]
        } else {
            Seq::empty()
        })
    }
}

/// The occupancy map after clearing and collapsing each row of `rows` in
/// order, every step working on the map the previous steps produced.
pub open spec fn spec_collapse_seq(
    m: Map<(int, int), bool>,
    w: int,
    h: int,
    rows: Seq<int>,
) -> Map<(int, int), bool>
    decreases rows.len(),
{
    if rows.len() == 0 {
        m
    } else {
        spec_collapse_seq(spec_collapse_one(m, w, h, rows[0]), w, h, rows.drop_first())
    }
}

/// The occupancy map after one full row-clear pass: the rows that are full in
/// `m` are collected once, then each is cleared and collapsed in ascending
/// order on the map as mutated by the earlier clears of the same pass.
pub open spec fn spec_clear_and_collapse(m: Map<(int, int), bool>, w: int, h: int) -> Map<
    (int, int),
    bool,
> {
    spec_collapse_seq(m, w, h, spec_full_rows(m, w, h))
}

/// Whether cell `i` of `body` lies at coordinate pair `k`.
pub open spec fn covers_at(body: Seq<Cell>, i: int, k: (int, int)) -> bool {
    body[i].x == k.0 && body[i].y == k.1
}

/// Whether some cell of `body` lies at coordinate pair `k`.
pub open spec fn body_covers(body: Seq<Cell>, k: (int, int)) -> bool {
    exists|i: int| 0 <= i < body.len() && #[trigger] covers_at(body, i, k)
}

/// The occupancy map after the cells of `body` settle into `m`.
pub open spec fn spec_commit(m: Map<(int, int), bool>, body: Seq<Cell>) -> Map<(int, int), bool> {
    Map::total(|k: (int, int)| body_covers(body, k) || m[k])
}

/// Collapsing the rows of `rows` and then row `y` is the same as collapsing
/// the rows of `rows.push(y)`.
pub proof fn lemma_collapse_seq_snoc(
    m: Map<(int, int), bool>,
    w: int,
    h: int,
    rows: Seq<int>,
    y: int,
)
    ensures
        spec_collapse_seq(m, w, h, rows.push(y)) == spec_collapse_one(
            spec_collapse_seq(m, w, h, rows),
            w,
            h,
            y,
        ),
    decreases rows.len(),
{
    if rows.len() == 0 {
        assert(rows.push(y)[0] == y);
        assert(rows.push(y).drop_first() =~= Seq::<int>::empty());
        assert(spec_collapse_seq(m, w, h, rows.push(y)) == spec_collapse_seq(
            spec_collapse_one(m, w, h, y),
            w,
            h,
            Seq::<int>::empty(),
        ));
    } else {
        assert(rows.push(y)[0] == rows[0]);
        assert(rows.push(y).drop_first() =~= rows.drop_first().push(y));
        assert(spec_collapse_seq(m, w, h, rows.push(y)) == spec_collapse_seq(
            spec_collapse_one(m, w, h, rows[0]),
            w,
            h,
            rows.drop_first().push(y),
        ));
        lemma_collapse_seq_snoc(spec_collapse_one(m, w, h, rows[0]), w, h, rows.drop_first(), y);
    }
}

/// A grid with no full row has an empty full-row list.
proof fn lemma_full_rows_empty(m: Map<(int, int), bool>, w: int, h: int)
    requires
        forall|y: int| 0 <= y < h ==> !spec_row_full(m, w, y),
    ensures
        spec_full_rows(m, w, h) == Seq::<int>::empty(),
    decreases h,
{
    if h > 0 {
        lemma_full_rows_empty(m, w, h - 1);
        assert(spec_full_rows(m, w, h) =~= Seq::<int>::empty());
    }
}

/// Law: a row-clear pass over a grid with no full row changes nothing.
pub proof fn lemma_clear_no_full_rows(m: Map<(int, int), bool>, w: int, h: int)
    requires
        forall|y: int| 0 <= y < h ==> !spec_row_full(m, w, y),
    ensures
        spec_clear_and_collapse(m, w, h) == m,
{
    lemma_full_rows_empty(m, w, h);
}

/// The fixed-size occupancy map of settled blocks.
pub struct Grid {
    cells: array2d::Array2D<bool>,
    width: usize,
    height: usize,
}

impl Grid {
    pub closed spec fn spec_width(&self) -> usize {
        self.width
    }

    pub closed spec fn spec_height(&self) -> usize {
        self.height
    }

    /// The dimensions are fixed, nonzero, and small enough that every
    /// coordinate fits an `i32` and the backing allocation fits a `usize`.
    pub closed spec fn wf(self) -> bool {
        &&& array2d_dims(self.cells) == (self.width as int, self.height as int)
        &&& 1 <= self.width <= i32::MAX
        &&& 1 <= self.height <= i32::MAX
        &&& self.width * self.height <= usize::MAX
    }

    /// The occupancy of every cell, as a total map that is `false` outside
    /// the grid's bounds.
    pub closed spec fn view(self) -> Map<(int, int), bool> {
        Map::total(
            |k: (int, int)|
                key_in_bounds(k, self.width as int, self.height as int)
                    && array2d_elems(self.cells)[k],
        )
    }

    /// Every in-bounds cell has a defined occupancy value, and out-of-bounds
    /// cells always read as unoccupied.
    pub proof fn lemma_view_total(self)
        ensures
            forall|k: (int, int)| self.view().dom().contains(k),
            forall|k: (int, int)|
                !key_in_bounds(k, self.spec_width() as int, self.spec_height() as int)
                    ==> !self.view()[k],
    {
    }

    /// The dimensions of a well-formed grid are nonzero and fit an `i32`.
    pub proof fn lemma_wf_bounds(self)
        requires
            self.wf(),
        ensures
            1 <= self.spec_width() <= i32::MAX,
            1 <= self.spec_height() <= i32::MAX,
    {
    }

    /// An out-of-bounds cell always reads as unoccupied.
    pub proof fn lemma_view_oob(self, k: (int, int))
        requires
            !key_in_bounds(k, self.spec_width() as int, self.spec_height() as int),
        ensures
            !self.view()[k],
    {
    }

    #[verifier::when_used_as_spec(spec_width)]
    pub fn width(&self) -> (r: usize)
        ensures
            r == self.spec_width(),
    {
        self.width
    }

    #[verifier::when_used_as_spec(spec_height)]
    pub fn height(&self) -> (r: usize)
        ensures
            r == self.spec_height(),
    {
        self.height
    }

    /// A `width` by `height` grid with every cell set to `value`.
    pub fn new_filled(width: usize, height: usize, value: bool) -> (g: Grid)
        requires
            1 <= width <= i32::MAX,
            1 <= height <= i32::MAX,
            width * height <= usize::MAX,
        ensures
            g.wf(),
            g.spec_width() == width,
            g.spec_height() == height,
            forall|k: (int, int)|
                g.view()[k] == (key_in_bounds(k, width as int, height as int) && value),
    {
        let cells = array2d_filled(value, width, height);
        Grid { cells, width, height }
    }

    /// Whether the cell at (x, y) is occupied.
    pub fn occupied(&self, x: usize, y: usize) -> (r: bool)
        requires
            self.wf(),
            x < self.spec_width(),
            y < self.spec_height(),
        ensures
            r == self.view()[(x as int, y as int)],
    {
        array2d_get(&self.cells, x, y)
    }

    /// Set the occupancy of the cell at (x, y).
    pub fn set(&mut self, x: usize, y: usize, value: bool)
        requires
            old(self).wf(),
            x < old(self).spec_width(),
            y < old(self).spec_height(),
        ensures
            final(self).wf(),
            final(self).spec_width() == old(self).spec_width(),
            final(self).spec_height() == old(self).spec_height(),
            final(self).view() == old(self).view().insert((x as int, y as int), value),
    {
        array2d_set(&mut self.cells, x, y, value);
        proof {
            assert(final(self).view() =~= old(self).view().insert((x as int, y as int), value));
        }
    }

    /// Clear row `y`, then collapse: every row above `y` moves down one, and
    /// the top row is left empty.
    #[verifier::loop_isolation(false)]
    fn clear_collapse_row(&mut self, y: usize)
        requires
            old(self).wf(),
            y < old(self).spec_height(),
        ensures
            final(self).wf(),
            final(self).spec_width() == old(self).spec_width(),
            final(self).spec_height() == old(self).spec_height(),
            final(self).view() == spec_collapse_one(
                old(self).view(),
                old(self).spec_width() as int,
                old(self).spec_height() as int,
                y as int,
            ),
    {
        let ghost m0 = old(self).view();
        let w = self.width;
        let mut x: usize = 0;
        while x < w
            invariant
                self.wf(),
                self.spec_width() == old(self).spec_width(),
                self.spec_height() == old(self).spec_height(),
                w == self.spec_width(),
                y < self.spec_height(),
                x <= w,
                forall|k: (int, int)|
                    self.view()[k] == (if k.1 == y as int && 0 <= k.0 < x as int {
                        false
                    } else {
                        m0[k]
                    }),
            decreases w - x,
        {
            self.set(x, y, false);
            x += 1;
        }
        proof {
            old(self).lemma_view_total();
            assert forall|k: (int, int)|
                self.view()[k] == (if k.1 == y as int {
                    false
                } else {
                    m0[k]
                }) by {}
        }
        let mut yy: usize = y;
        while yy > 0
            invariant
                self.wf(),
                self.spec_width() == old(self).spec_width(),
                self.spec_height() == old(self).spec_height(),
                w == self.spec_width(),
                y < self.spec_height(),
                yy <= y,
                forall|k: (int, int)|
                    self.view()[k] == (if (yy as int) < k.1 <= y as int {
                        m0[(k.0, k.1 - 1)]
                    } else if k.1 == y as int {
                        false
                    } else {
                        m0[k]
                    }),
            decreases yy,
        {
            let src = yy - 1;
            let ghost mb = self.view();
            let mut x2: usize = 0;
            while x2 < w
                invariant
                    self.wf(),
                    self.spec_width() == old(self).spec_width(),
                    self.spec_height() == old(self).spec_height(),
                    w == self.spec_width(),
                    y < self.spec_height(),
                    1 <= yy <= y,
                    src == yy - 1,
                    x2 <= w,
                    forall|k: (int, int)|
                        mb[k] == (if (yy as int) < k.1 <= y as int {
                            m0[(k.0, k.1 - 1)]
                        } else if k.1 == y as int {
                            false
                        } else {
                            m0[k]
                        }),
                    forall|k: (int, int)|
                        self.view()[k] == (if k.1 == yy as int && 0 <= k.0 < x2 as int {
                            mb[(k.0, src as int)]
                        } else {
                            mb[k]
                        }),
                decreases w - x2,
            {
                let v = self.occupied(x2, src);
                self.set(x2, yy, v);
                x2 += 1;
            }
            proof {
                old(self).lemma_view_total();
                self.lemma_view_total();
                assert forall|k: (int, int)|
                    self.view()[k] == (if ((yy - 1) as int) < k.1 <= y as int {
                        m0[(k.0, k.1 - 1)]
                    } else if k.1 == y as int {
                        false
                    } else {
                        m0[k]
                    }) by {
                    if k.1 == yy as int {
                        if 0 <= k.0 < w as int {
                            assert(self.view()[k] == mb[(k.0, src as int)]);
                            assert(mb[(k.0, src as int)] == m0[(k.0, src as int)]);
                        } else {
                            assert(!key_in_bounds(k, w as int, self.spec_height() as int));
                            self.lemma_view_oob(k);
                            old(self).lemma_view_oob((k.0, k.1 - 1));
                        }
                    }
                }
            }
            yy = src;
        }
        let mut x3: usize = 0;
        let ghost mc = self.view();
        while x3 < w
            invariant
                self.wf(),
                self.spec_width() == old(self).spec_width(),
                self.spec_height() == old(self).spec_height(),
                w == self.spec_width(),
                y < self.spec_height(),
                x3 <= w,
                forall|k: (int, int)|
                    mc[k] == (if 0 < k.1 <= y as int {
                        m0[(k.0, k.1 - 1)]
                    } else if k.1 == y as int {
                        false
                    } else {
                        m0[k]
                    }),
                forall|k: (int, int)|
                    self.view()[k] == (if k.1 == 0 && 0 <= k.0 < x3 as int {
                        false
                    } else {
                        mc[k]
                    }),
            decreases w - x3,
        {
            self.set(x3, 0, false);
            x3 += 1;
        }
        proof {
            old(self).lemma_view_total();
            self.lemma_view_total();
            let w_ = old(self).spec_width() as int;
            let h_ = old(self).spec_height() as int;
            assert forall|k: (int, int)|
                self.view()[k] == spec_collapse_one(m0, w_, h_, y as int)[k] by {
                if !key_in_bounds(k, w_, h_) {
                    assert(!self.view()[k]);
                } else if k.1 == 0 {
                    assert(!self.view()[k]);
                } else if k.1 <= y as int {
                    assert(self.view()[k] == mc[k]);
                    assert(mc[k] == m0[(k.0, k.1 - 1)]);
                } else {
                    assert(self.view()[k] == mc[k]);
                    assert(mc[k] == m0[k]);
                }
            }
            assert(self.view() =~= spec_collapse_one(m0, w_, h_, y as int));
        }
    }

    /// One full row-clear pass, as `spec_clear_and_collapse` describes: the
    /// full rows are collected once at the start, then each is cleared and
    /// collapsed in ascending order.
    #[verifier::loop_isolation(false)]
    pub fn clear_full_rows(&mut self)
        requires
            old(self).wf(),
        ensures
            final(self).wf(),
            final(self).spec_width() == old(self).spec_width(),
            final(self).spec_height() == old(self).spec_height(),
            final(self).view() == spec_clear_and_collapse(
                old(self).view(),
                old(self).spec_width() as int,
                old(self).spec_height() as int,
            ),
    {
        let ghost m0 = old(self).view();
        let ghost w_ = old(self).spec_width() as int;
        let ghost h_ = old(self).spec_height() as int;
        let h = self.height;
        let mut full_rows: Vec<usize> = Vec::new();
        let ghost mut rows_int: Seq<int> = Seq::empty();
        let mut y: usize = 0;
        while y < h
            invariant
                self.wf(),
                self == old(self),
                h == self.spec_height(),
                y <= h,
                rows_int == spec_full_rows(m0, w_, y as int),
                rows_int.len() == full_rows@.len(),
                forall|i: int|
                    0 <= i < full_rows@.len() ==> rows_int[i] == #[trigger] full_rows@[i] as int,
                forall|i: int| 0 <= i < full_rows@.len() ==> #[trigger] full_rows@[i] < h,
            decreases h - y,
        {
            if self.is_row_full(y) {
                full_rows.push(y);
                proof {
                    rows_int = rows_int.push(y as int);
                    assert(spec_full_rows(m0, w_, (y + 1) as int) =~= spec_full_rows(
                        m0,
                        w_,
                        y as int,
                    ).push(y as int));
                }
            } else {
                proof {
                    assert(spec_full_rows(m0, w_, (y + 1) as int) =~= spec_full_rows(
                        m0,
                        w_,
                        y as int,
                    ));
                }
            }
            y += 1;
        }
        proof {
            assert(rows_int == spec_full_rows(m0, w_, h_));
        }
        let n = full_rows.len();
        proof {
            assert(rows_int.take(0) =~= Seq::<int>::empty());
        }
        let mut i: usize = 0;
        while i < n
            invariant
                self.wf(),
                self.spec_width() == old(self).spec_width(),
                self.spec_height() == old(self).spec_height(),
                n == full_rows@.len(),
                i <= n,
                forall|j: int| 0 <= j < full_rows@.len() ==> #[trigger] full_rows@[j] < self.spec_height(),
                rows_int.len() == full_rows@.len(),
                forall|j: int|
                    0 <= j < full_rows@.len() ==> rows_int[j] == #[trigger] full_rows@[j] as int,
                self.view() == spec_collapse_seq(m0, w_, h_, rows_int.take(i as int)),
            decreases n - i,
        {
            let row = full_rows[i];
            self.clear_collapse_row(row);
            proof {
                lemma_collapse_seq_snoc(m0, w_, h_, rows_int.take(i as int), rows_int[i as int]);
                assert(rows_int.take(i + 1) =~= rows_int.take(i as int).push(rows_int[i as int]));
            }
            i += 1;
        }
        proof {
            assert(rows_int.take(n as int) =~= rows_int);
        }
    }

    /// Write every cell of `body` into the grid as occupied, as happens when
    /// falling blocks settle.
    #[verifier::loop_isolation(false)]
    pub fn commit_cells(&mut self, body: &Vec<Cell>)
        requires
            old(self).wf(),
            forall|i: int|
                0 <= i < body@.len() ==> crate::cell::in_bounds(
                    #[trigger] body@[i],
                    old(self).spec_width() as int,
                    old(self).spec_height() as int,
                ),
        ensures
            final(self).wf(),
            final(self).spec_width() == old(self).spec_width(),
            final(self).spec_height() == old(self).spec_height(),
            final(self).view() == spec_commit(old(self).view(), body@),
    {
        let ghost m0 = old(self).view();
        let mut i: usize = 0;
        while i < body.len()
            invariant
                self.wf(),
                self.spec_width() == old(self).spec_width(),
                self.spec_height() == old(self).spec_height(),
                i <= body@.len(),
                forall|j: int|
                    0 <= j < body@.len() ==> crate::cell::in_bounds(
                        #[trigger] body@[j],
                        self.spec_width() as int,
                        self.spec_height() as int,
                    ),
                self.view() == spec_commit(m0, body@.take(i as int)),
            decreases body@.len() - i,
        {
            let c = body[i];
            self.set(c.x as usize, c.y as usize, true);
            proof {
                assert forall|k: (int, int)|
                    self.view()[k] == spec_commit(m0, body@.take(i + 1))[k] by {
                    if k == (c.x as int, c.y as int) {
                        assert(body@.take(i + 1)[i as int] == body@[i as int]);
                        assert(covers_at(body@.take(i + 1), i as int, k));
                        assert(body_covers(body@.take(i + 1), k));
                    } else {
                        if body_covers(body@.take(i as int), k) {
                            let j = choose|j: int|
                                0 <= j < body@.take(i as int).len() && #[trigger] covers_at(
                                    body@.take(i as int),
                                    j,
                                    k,
                                );
                            assert(body@.take(i + 1)[j] == body@.take(i as int)[j]);
                            assert(covers_at(body@.take(i + 1), j, k));
                            assert(body_covers(body@.take(i + 1), k));
                        }
                        if body_covers(body@.take(i + 1), k) {
                            let j = choose|j: int|
                                0 <= j < body@.take(i + 1).len() && #[trigger] covers_at(
                                    body@.take(i + 1),
                                    j,
                                    k,
                                );
                            assert(j != i);
                            assert(body@.take(i as int)[j] == body@.take(i + 1)[j]);
                            assert(covers_at(body@.take(i as int), j, k));
                            assert(body_covers(body@.take(i as int), k));
                        }
                    }
                }
                assert(self.view() =~= spec_commit(m0, body@.take(i + 1)));
            }
            i += 1;
        }
        proof {
            assert(body@.take(body@.len() as int) =~= body@);
        }
    }

    /// Whether row `y` is fully occupied.
    pub fn is_row_full(&self, y: usize) -> (r: bool)
        requires
            self.wf(),
            y < self.spec_height(),
        ensures
            r == spec_row_full(self.view(), self.spec_width() as int, y as int),
    {
        let mut x: usize = 0;
        let mut full = true;
        while x < self.width
            invariant
                self.wf(),
                x <= self.width,
                y < self.spec_height(),
                full == (forall|i: int| 0 <= i < x ==> self.view()[(i, y as int)]),
            decreases self.width - x,
        {
            if !self.occupied(x, y) {
                full = false;
            }
            x += 1;
        }
        full
    }
}

} // verus!
