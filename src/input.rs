//! Screen regions, the two gesture paths and the tracker that follows them.
use vstd::prelude::*;

verus! {

/// What one pointer position meant to the tracker.
#[derive(Debug, Clone, Copy, PartialEq, Eq, Structural)]
pub enum Status {
    InsideCurrentArea,
    InsideNextArea,
    ActivationShapeCompleted,
    ConfirmationShapeCompleted,
    OutsideBoundaries,
}

/// The shape whose path the tracker is following.
#[derive(Debug, Clone, Copy, PartialEq, Eq, Structural)]
pub enum Shape {
    /// The closed loop along the screen border, which arms the system.
    Activation,
    /// The horizontal strip across the middle, which starts the backup.
    Confirmation,
}

/// An integer screen position.
#[derive(Debug, Clone, Copy, PartialEq, Eq, Structural)]
pub struct Coordinate {
    pub x: i32,
    pub y: i32,
}

/// A rectangle with inclusive corners.
#[derive(Debug, Clone, Copy, PartialEq, Eq, Structural)]
pub struct Area {
    pub top_left: Coordinate,
    pub bottom_right: Coordinate,
}

impl Area {
    pub open spec fn spec_contains(self, p: Coordinate) -> bool {
        &&& self.top_left.x <= p.x <= self.bottom_right.x
        &&& self.top_left.y <= p.y <= self.bottom_right.y
    }

    pub fn new(start: Coordinate, end: Coordinate) -> (r: Self)
        ensures
            r.top_left == start,
            r.bottom_right == end,
    {
        Area { top_left: start, bottom_right: end }
    }

    /// Containment, inclusive on all four bounds.
    pub fn contains(&self, point: &Coordinate) -> (r: bool)
        ensures
            r == self.spec_contains(*point),
    {
        point.x >= self.top_left.x && point.x <= self.bottom_right.x && point.y >= self.top_left.y
            && point.y <= self.bottom_right.y
    }
}

/// Screen sizes for which both paths can be built without overflow.
pub open spec fn dims_ok(w: int, h: int) -> bool {
    0 <= w <= i32::MAX - 100 && 8 <= h <= i32::MAX - 100
}

pub open spec fn cell_size(h: int) -> int {
    h / 8
}

/// `(w - h) / cell_size(h)`, rounded toward zero.
pub open spec fn extra_cells(w: int, h: int) -> int {
    if w >= h {
        (w - h) / cell_size(h)
    } else {
        -((h - w) / cell_size(h))
    }
}

pub open spec fn at_least(n: int, lo: int) -> int {
    if n >= lo {
        n
    } else {
        lo
    }
}

pub open spec fn mk_area(x0: int, y0: int, x1: int, y1: int) -> Area {
    Area {
        top_left: Coordinate { x: x0 as i32, y: y0 as i32 },
        bottom_right: Coordinate { x: x1 as i32, y: y1 as i32 },
    }
}

pub open spec fn left_cell(h: int, k: int) -> Area {
    let c = cell_size(h);
    mk_area(-100, k * c, c, (k + 1) * c)
}

/// Left edge, top to bottom: eight cells, the last stretched past the bottom.
pub open spec fn left_edge(w: int, h: int) -> Seq<Area> {
    let c = cell_size(h);
    Seq::new(7, |k: int| left_cell(h, k)).push(mk_area(-100, 7 * c, c, h + 100))
}

/// Index of the last bottom-edge cell.
pub open spec fn bottom_last(w: int, h: int) -> int {
    at_least(7 + extra_cells(w, h), 1)
}

pub open spec fn bottom_cell(w: int, h: int, k: int) -> Area {
    let c = cell_size(h);
    mk_area(k * c, h - c, (k + 1) * c, h + 100)
}

/// Bottom edge, left to right, starting after the shared corner.
pub open spec fn bottom_edge(w: int, h: int) -> Seq<Area> {
    let c = cell_size(h);
    let n = bottom_last(w, h);
    Seq::new((n - 1) as nat, |j: int| bottom_cell(w, h, j + 1)).push(
        mk_area(n * c, h - c, w + 100, h + 100),
    )
}

pub open spec fn right_cell(w: int, h: int, k: int) -> Area {
    let c = cell_size(h);
    mk_area(w - c, h - (k + 1) * c, w + 100, h - k * c)
}

/// Right edge, bottom to top, the last cell stretched past the top.
pub open spec fn right_edge(w: int, h: int) -> Seq<Area> {
    let c = cell_size(h);
    Seq::new(6, |j: int| right_cell(w, h, j + 1)).push(mk_area(w - c, -100, w + 100, h - 7 * c))
}

/// Index of the last top-edge cell.
pub open spec fn top_last(w: int, h: int) -> int {
    at_least(6 + extra_cells(w, h), 1)
}

pub open spec fn top_cell(w: int, h: int, k: int) -> Area {
    let c = cell_size(h);
    mk_area(w - (k + 1) * c, -100, w - k * c, c)
}

/// Top edge, right to left, the last cell stretched left to the first column.
pub open spec fn top_edge(w: int, h: int) -> Seq<Area> {
    let c = cell_size(h);
    let n = top_last(w, h);
    Seq::new((n - 1) as nat, |j: int| top_cell(w, h, j + 1)).push(mk_area(c, -100, w - n * c, c))
}

pub open spec fn activation_path(w: int, h: int) -> Seq<Area> {
    left_edge(w, h) + bottom_edge(w, h) + right_edge(w, h) + top_edge(w, h)
}

/// Index of the last strip cell.
pub open spec fn strip_last(w: int, h: int) -> int {
    at_least(7 + extra_cells(w, h), 0)
}

pub open spec fn strip_cell(w: int, h: int, k: int) -> Area {
    let c = cell_size(h);
    mk_area(k * c, h / 2 - 2 * c, (k + 1) * c, h / 2 + 2 * c)
}

/// A strip four cells high centred on the middle row, the last cell reaching `w`.
pub open spec fn confirmation_path(w: int, h: int) -> Seq<Area> {
    let c = cell_size(h);
    let n = strip_last(w, h);
    Seq::new(n as nat, |k: int| strip_cell(w, h, k)).push(
        mk_area(n * c, h / 2 - 2 * c, w, h / 2 + 2 * c),
    )
}

/// The region sequence of a shape on a `w` by `h` screen.
pub open spec fn path_of(w: int, h: int, shape: Shape) -> Seq<Area> {
    match shape {
        Shape::Activation => activation_path(w, h),
        Shape::Confirmation => confirmation_path(w, h),
    }
}

} // verus!

verus! {

/// Larger of the two screen sides.
pub open spec fn span(w: int, h: int) -> int {
    if w >= h {
        w
    } else {
        h
    }
}

proof fn lemma_mul_mono(k: int, n: int, c: int)
    requires
        0 <= k <= n,
        0 <= c,
    ensures
        0 <= k * c <= n * c,
        (k + 1) * c == k * c + c,
{
    assert(0 <= k * c <= n * c) by (nonlinear_arith)
        requires
            0 <= k <= n,
            0 <= c,
    ;
    assert((k + 1) * c == k * c + c) by (nonlinear_arith);
}

/// Every cell index that either path uses stays within the larger screen side.
proof fn lemma_cell_bounds(w: int, h: int)
    requires
        dims_ok(w, h),
    ensures
        cell_size(h) >= 1,
        8 * cell_size(h) <= h,
        bottom_last(w, h) * cell_size(h) <= span(w, h),
        0 <= strip_last(w, h) <= bottom_last(w, h),
        1 <= top_last(w, h) <= bottom_last(w, h),
        7 <= bottom_last(w, h) || w < h,
{
    let c = cell_size(h);
    let e = extra_cells(w, h);
    assert(8 * c <= h && c >= 1);
    if w >= h {
        assert(e * c <= w - h) by (nonlinear_arith)
            requires
                e == (w - h) / c,
                c >= 1,
                w - h >= 0,
        ;
        assert(e >= 0) by (nonlinear_arith)
            requires
                e == (w - h) / c,
                c >= 1,
                w - h >= 0,
        ;
        assert((7 + e) * c == 7 * c + e * c) by (nonlinear_arith);
    } else {
        assert(e <= 0) by (nonlinear_arith)
            requires
                e == -((h - w) / c),
                c >= 1,
                h - w > 0,
        ;
        lemma_mul_mono(bottom_last(w, h), 7, c);
    }
}

/// Builds the region sequence of `shape` for a `w` by `h` screen.
pub fn generate_path(w: i32, h: i32, shape: Shape) -> (path: Vec<Area>)
    requires
        dims_ok(w as int, h as int),
    ensures
        path@ == path_of(w as int, h as int, shape),
{
    proof {
        lemma_cell_bounds(w as int, h as int);
    }
    let ghost gw = w as int;
    let ghost gh = h as int;
    let mut path: Vec<Area> = Vec::new();
    let c: i32 = h / 8;
    let extra: i32 = (w - h) / c;
    assert(extra as int == extra_cells(gw, gh));
    let bottom_n: i32 = if 7 + extra >= 1 {
        7 + extra
    } else {
        1
    };
    let top_n: i32 = if 6 + extra >= 1 {
        6 + extra
    } else {
        1
    };
    let strip_n: i32 = if 7 + extra >= 0 {
        7 + extra
    } else {
        0
    };
    let mut i: i32 = 0;
    match shape {
        Shape::Activation => {
            while i < 7
                invariant
                    0 <= i <= 7,
                    c as int == cell_size(gh),
                    gw == w,
                    gh == h,
                    dims_ok(gw, gh),
                    8 * c <= h,
                    path@ =~= Seq::new(i as nat, |k: int| left_cell(gh, k)),
                decreases 7 - i,
            {
                proof {
                    lemma_mul_mono(i as int, 7, c as int);
                }
                path.push(
                    Area {
                        top_left: Coordinate { x: -100, y: i * c },
                        bottom_right: Coordinate { x: c, y: (i + 1) * c },
                    },
                );
                i += 1;
            }
            proof {
                lemma_mul_mono(7, 7, c as int);
            }
            path.push(
                Area {
                    top_left: Coordinate { x: -100, y: 7 * c },
                    bottom_right: Coordinate { x: c, y: h + 100 },
                },
            );
            assert(path@ =~= left_edge(gw, gh));
            let ghost left = path@;
            i = 1;
            while i < bottom_n
                invariant
                    1 <= i <= bottom_n,
                    bottom_n as int == bottom_last(gw, gh),
                    bottom_n * c <= span(gw, gh),
                    c as int == cell_size(gh),
                    c >= 1,
                    gw == w,
                    gh == h,
                    dims_ok(gw, gh),
                    8 * c <= h,
                    path@ =~= left + Seq::new((i - 1) as nat, |j: int| bottom_cell(gw, gh, j + 1)),
                decreases bottom_n - i,
            {
                proof {
                    lemma_mul_mono(i as int, bottom_n as int, c as int);
                    lemma_mul_mono(i as int + 1, bottom_n as int, c as int);
                }
                path.push(
                    Area {
                        top_left: Coordinate { x: i * c, y: h - c },
                        bottom_right: Coordinate { x: (i + 1) * c, y: h + 100 },
                    },
                );
                i += 1;
            }
            path.push(
                Area {
                    top_left: Coordinate { x: bottom_n * c, y: h - c },
                    bottom_right: Coordinate { x: w + 100, y: h + 100 },
                },
            );
            assert(path@ =~= left + bottom_edge(gw, gh));
            let ghost lower = path@;
            i = 1;
            while i < 7
                invariant
                    1 <= i <= 7,
                    c as int == cell_size(gh),
                    c >= 1,
                    gw == w,
                    gh == h,
                    dims_ok(gw, gh),
                    8 * c <= h,
                    path@ =~= lower + Seq::new((i - 1) as nat, |j: int| right_cell(gw, gh, j + 1)),
                decreases 7 - i,
            {
                proof {
                    lemma_mul_mono(i as int, 7, c as int);
                    lemma_mul_mono(i as int + 1, 8, c as int);
                }
                path.push(
                    Area {
                        top_left: Coordinate { x: w - c, y: h - (i + 1) * c },
                        bottom_right: Coordinate { x: w + 100, y: h - i * c },
                    },
                );
                i += 1;
            }
            proof {
                lemma_mul_mono(7, 7, c as int);
            }
            path.push(
                Area {
                    top_left: Coordinate { x: w - c, y: -100 },
                    bottom_right: Coordinate { x: w + 100, y: h - 7 * c },
                },
            );
            assert(path@ =~= lower + right_edge(gw, gh));
            let ghost three = path@;
            i = 1;
            while i < top_n
                invariant
                    1 <= i <= top_n,
                    top_n as int == top_last(gw, gh),
                    top_n <= bottom_n,
                    bottom_n * c <= span(gw, gh),
                    c as int == cell_size(gh),
                    c >= 1,
                    gw == w,
                    gh == h,
                    dims_ok(gw, gh),
                    8 * c <= h,
                    path@ =~= three + Seq::new((i - 1) as nat, |j: int| top_cell(gw, gh, j + 1)),
                decreases top_n - i,
            {
                proof {
                    lemma_mul_mono(i as int, bottom_n as int, c as int);
                    lemma_mul_mono(i as int + 1, bottom_n as int, c as int);
                }
                path.push(
                    Area {
                        top_left: Coordinate { x: w - (i + 1) * c, y: -100 },
                        bottom_right: Coordinate { x: w - i * c, y: c },
                    },
                );
                i += 1;
            }
            proof {
                lemma_mul_mono(top_n as int, bottom_n as int, c as int);
            }
            path.push(
                Area {
                    top_left: Coordinate { x: c, y: -100 },
                    bottom_right: Coordinate { x: w - top_n * c, y: c },
                },
            );
            assert(path@ =~= three + top_edge(gw, gh));
            assert(path@ =~= activation_path(gw, gh));
        },
        Shape::Confirmation => {
            while i < strip_n
                invariant
                    0 <= i <= strip_n,
                    strip_n as int == strip_last(gw, gh),
                    strip_n <= bottom_n,
                    bottom_n * c <= span(gw, gh),
                    c as int == cell_size(gh),
                    c >= 1,
                    gw == w,
                    gh == h,
                    dims_ok(gw, gh),
                    8 * c <= h,
                    path@ =~= Seq::new(i as nat, |k: int| strip_cell(gw, gh, k)),
                decreases strip_n - i,
            {
                proof {
                    lemma_mul_mono(i as int, bottom_n as int, c as int);
                    lemma_mul_mono(i as int + 1, bottom_n as int, c as int);
                }
                path.push(
                    Area {
                        top_left: Coordinate { x: i * c, y: h / 2 - 2 * c },
                        bottom_right: Coordinate { x: (i + 1) * c, y: h / 2 + 2 * c },
                    },
                );
                i += 1;
            }
            proof {
                lemma_mul_mono(strip_n as int, bottom_n as int, c as int);
            }
            path.push(
                Area {
                    top_left: Coordinate { x: strip_n * c, y: h / 2 - 2 * c },
                    bottom_right: Coordinate { x: w, y: h / 2 + 2 * c },
                },
            );
            assert(path@ =~= confirmation_path(gw, gh));
        },
    }
    path
}

} // verus!

verus! {

/// Abstract tracker state: mode, screen, current path and progress along it.
pub struct TrackerState {
    pub shape: Shape,
    pub width: int,
    pub height: int,
    pub path: Seq<Area>,
    pub position: int,
}

pub open spec fn toggled(shape: Shape) -> Shape {
    match shape {
        Shape::Activation => Shape::Confirmation,
        Shape::Confirmation => Shape::Activation,
    }
}

/// The status reported when a path of `shape` is completed.
pub open spec fn completion(shape: Shape) -> Status {
    match shape {
        Shape::Activation => Status::ActivationShapeCompleted,
        Shape::Confirmation => Status::ConfirmationShapeCompleted,
    }
}

pub open spec fn valid_state(s: TrackerState) -> bool {
    &&& dims_ok(s.width, s.height)
    &&& s.path == path_of(s.width, s.height, s.shape)
    &&& 0 <= s.position < s.path.len()
}

/// The state at the start of a path of `shape`.
pub open spec fn fresh_state(w: int, h: int, shape: Shape) -> TrackerState {
    TrackerState { shape, width: w, height: h, path: path_of(w, h, shape), position: 0 }
}

/// The point lies in neither the current region nor the one after it.
pub open spec fn off_path(s: TrackerState, p: Coordinate) -> bool {
    &&& !s.path[s.position].spec_contains(p)
    &&& !(s.position + 1 < s.path.len() && s.path[s.position + 1].spec_contains(p))
}

/// One pointer position: stay, advance by one region, complete the shape, or restart.
pub open spec fn step(s: TrackerState, p: Coordinate) -> (TrackerState, Status) {
    if s.path[s.position].spec_contains(p) {
        (s, Status::InsideCurrentArea)
    } else if s.position + 1 < s.path.len() && s.path[s.position + 1].spec_contains(p) {
        if s.position + 1 == s.path.len() - 1 {
            (fresh_state(s.width, s.height, toggled(s.shape)), completion(s.shape))
        } else {
            (TrackerState { position: s.position + 1, ..s }, Status::InsideNextArea)
        }
    } else {
        (TrackerState { position: 0, ..s }, Status::OutsideBoundaries)
    }
}

/// Feeds the points to the tracker in order, collecting the statuses.
pub open spec fn run(s: TrackerState, pts: Seq<Coordinate>) -> (TrackerState, Seq<Status>)
    decreases pts.len(),
{
    if pts.len() == 0 {
        (s, Seq::empty())
    } else {
        let prev = run(s, pts.drop_last());
        let next = step(prev.0, pts.last());
        (next.0, prev.1.push(next.1))
    }
}

/// The points enter the regions after the current one strictly in order, each
/// outside the region before it, up to and including the last region.
pub open spec fn visits_in_order(s: TrackerState, pts: Seq<Coordinate>) -> bool {
    &&& pts.len() == s.path.len() - 1 - s.position
    &&& forall|k: int|
        0 <= k < pts.len() ==> {
            &&& #[trigger] s.path[s.position + k + 1].spec_contains(pts[k])
            &&& !s.path[s.position + k].spec_contains(pts[k])
        }
}

/// Follows a gesture path on the screen, one pointer position at a time.
pub struct Tracker {
    shape: Shape,
    screen_width: i32,
    screen_height: i32,
    path: Vec<Area>,
    position: usize,
}

impl View for Tracker {
    type V = TrackerState;

    closed spec fn view(&self) -> TrackerState {
        TrackerState {
            shape: self.shape,
            width: self.screen_width as int,
            height: self.screen_height as int,
            path: self.path@,
            position: self.position as int,
        }
    }
}

impl Tracker {
    pub open spec fn wf(&self) -> bool {
        valid_state(self@)
    }

    /// A tracker waiting for the first region of the activation shape.
    pub fn new(width: i32, height: i32) -> (r: Self)
        requires
            dims_ok(width as int, height as int),
        ensures
            r@ == fresh_state(width as int, height as int, Shape::Activation),
            r.wf(),
    {
        let r = Tracker {
            shape: Shape::Activation,
            screen_width: width,
            screen_height: height,
            path: generate_path(width, height, Shape::Activation),
            position: 0,
        };
        proof {
            lemma_cell_bounds(width as int, height as int);
        }
        r
    }

    /// Classifies `point` against the current path and advances, completes or restarts.
    pub fn update(&mut self, point: Coordinate) -> (r: Status)
        requires
            old(self).wf(),
        ensures
            final(self).wf(),
            (final(self)@, r) == step(old(self)@, point),
            off_path(old(self)@, point) ==> final(self)@.position == 0 && r
                == Status::OutsideBoundaries,
    {
        let n = self.path.len();
        if self.path[self.position].contains(&point) {
            Status::InsideCurrentArea
        } else if self.position < n - 1 && self.path[self.position + 1].contains(&point) {
            self.position = self.position + 1;
            if self.position == n - 1 {
                self.handle_shape_completion()
            } else {
                Status::InsideNextArea
            }
        } else {
            self.position = 0;
            Status::OutsideBoundaries
        }
    }

    /// Switches to the other shape and starts its path from the first region.
    fn handle_shape_completion(&mut self) -> (r: Status)
        requires
            dims_ok(old(self)@.width, old(self)@.height),
        ensures
            final(self)@ == fresh_state(old(self)@.width, old(self)@.height, toggled(old(self)@.shape)),
            final(self).wf(),
            r == completion(old(self)@.shape),
    {
        proof {
            lemma_cell_bounds(self.screen_width as int, self.screen_height as int);
        }
        match self.shape {
            Shape::Activation => {
                self.shape = Shape::Confirmation;
                self.position = 0;
                self.path = generate_path(self.screen_width, self.screen_height, Shape::Confirmation);
                Status::ActivationShapeCompleted
            },
            Shape::Confirmation => {
                self.shape = Shape::Activation;
                self.position = 0;
                self.path = generate_path(self.screen_width, self.screen_height, Shape::Activation);
                Status::ConfirmationShapeCompleted
            },
        }
    }
}

proof fn lemma_run_prefix(s: TrackerState, pts: Seq<Coordinate>, j: int)
    requires
        valid_state(s),
        visits_in_order(s, pts),
        0 <= j < pts.len(),
    ensures
        run(s, pts.take(j)) == (
        TrackerState { position: s.position + j, ..s },
        Seq::new(j as nat, |k: int| Status::InsideNextArea),
        ),
    decreases j,
{
    if j == 0 {
        assert(pts.take(0) =~= Seq::<Coordinate>::empty());
        assert(Seq::new(0, |k: int| Status::InsideNextArea) =~= Seq::<Status>::empty());
        assert(TrackerState { position: s.position + 0, ..s } == s);
    } else {
        lemma_run_prefix(s, pts, j - 1);
        assert(pts.take(j).drop_last() =~= pts.take(j - 1));
        assert(pts.take(j).last() == pts[j - 1]);
        let k = j - 1;
        assert(s.path[s.position + k + 1].spec_contains(pts[k]));
        assert(Seq::new((j - 1) as nat, |k: int| Status::InsideNextArea).push(Status::InsideNextArea)
            =~= Seq::new(j as nat, |k: int| Status::InsideNextArea));
    }
}

/// Points that enter the remaining regions strictly in order produce exactly one
/// completion, for the current shape, at the point that enters the last region;
/// every earlier point reports an advance.
pub proof fn lemma_completes_once(s: TrackerState, pts: Seq<Coordinate>)
    requires
        valid_state(s),
        visits_in_order(s, pts),
        pts.len() >= 1,
    ensures
        run(s, pts).1.len() == pts.len(),
        forall|k: int| 0 <= k < pts.len() - 1 ==> run(s, pts).1[k] == Status::InsideNextArea,
        run(s, pts).1[pts.len() - 1] == completion(s.shape),
        run(s, pts).0 == fresh_state(s.width, s.height, toggled(s.shape)),
{
    let j = pts.len() - 1;
    lemma_run_prefix(s, pts, j);
    assert(pts.drop_last() =~= pts.take(j));
    assert(s.path[s.position + j + 1].spec_contains(pts[j]));
}

/// A point in neither the current nor the next region restarts the path, however
/// far the tracker had come.
pub proof fn lemma_off_path_restarts(s: TrackerState, p: Coordinate)
    requires
        valid_state(s),
        off_path(s, p),
    ensures
        step(s, p).0 == (TrackerState { position: 0, ..s }),
        step(s, p).1 == Status::OutsideBoundaries,
        valid_state(step(s, p).0),
{
}

} // verus!

verus! {

/// Path generation depends on the screen size and the shape alone: two paths
/// built from the same arguments have the same regions in the same order.
pub proof fn lemma_generation_deterministic(
    w: int,
    h: int,
    shape: Shape,
    first: Seq<Area>,
    second: Seq<Area>,
)
    requires
        dims_ok(w, h),
        first == path_of(w, h, shape),
        second == path_of(w, h, shape),
    ensures
        first.len() == second.len(),
        forall|k: int| 0 <= k < first.len() ==> first[k] == second[k],
{
}

} // verus!
