//! A fixed-size three-dimensional grid whose coordinates wrap around on
//! every axis, stored as one contiguous buffer.

use vstd::prelude::*;

verus! {

/// A coordinate triple `(x, y, z)`. Any integer is a valid coordinate: it is
/// reduced modulo the extent of its axis.
pub type Coord = (isize, isize, isize);

/// The non-negative remainder of `x` modulo `n`.
pub open spec fn wrap(x: int, n: int) -> int {
    x % n
}

/// Position of cell `(x, y, z)` in the flat buffer of a `w * h * d` grid:
/// `x` runs fastest, `z` slowest, each coordinate reduced modulo its extent.
pub open spec fn flat_offset(x: int, y: int, z: int, w: int, h: int, d: int) -> int {
    wrap(x, w) + wrap(y, h) * w + wrap(z, d) * w * h
}

/// The in-range coordinates of the cell stored at flat position `o`.
pub open spec fn coords_of(o: int, w: int, h: int) -> (int, int, int) {
    (o % w, (o / w) % h, o / (w * h))
}

/// Offsets are below the cell count.
pub proof fn lemma_flat_offset_bound(x: int, y: int, z: int, w: int, h: int, d: int)
    requires
        w > 0,
        h > 0,
        d > 0,
    ensures
        0 <= flat_offset(x, y, z, w, h, d) < w * h * d,
        0 <= wrap(x, w) < w,
        0 <= wrap(y, h) < h,
        0 <= wrap(z, d) < d,
        0 <= wrap(y, h) * w <= (h - 1) * w,
        0 <= wrap(z, d) * w * h <= (d - 1) * (w * h),
{
    let xw = wrap(x, w);
    let yw = wrap(y, h);
    let zw = wrap(z, d);
    assert(0 <= yw * w <= (h - 1) * w) by (nonlinear_arith)
        requires
            0 <= yw <= h - 1,
            w > 0,
    ;
    assert(zw * w * h == zw * (w * h)) by (nonlinear_arith);
    assert(0 <= zw * (w * h) <= (d - 1) * (w * h)) by (nonlinear_arith)
        requires
            0 <= zw <= d - 1,
            w > 0,
            h > 0,
    ;
    assert((h - 1) * w + (d - 1) * (w * h) + w == w * h * d) by (nonlinear_arith);
}

/// Wrapping is periodic: moving a coordinate by any whole number of grid
/// extents reaches the same cell, and a coordinate names the same cell as its
/// non-negative remainder.
pub proof fn lemma_offset_periodic(
    x: int,
    y: int,
    z: int,
    w: int,
    h: int,
    d: int,
    kx: int,
    ky: int,
    kz: int,
)
    requires
        w > 0,
        h > 0,
        d > 0,
    ensures
        flat_offset(x + kx * w, y + ky * h, z + kz * d, w, h, d) == flat_offset(x, y, z, w, h, d),
        flat_offset(x % w, y % h, z % d, w, h, d) == flat_offset(x, y, z, w, h, d),
{
    vstd::arithmetic::div_mod::lemma_mod_multiples_vanish(kx, x, w);
    vstd::arithmetic::div_mod::lemma_mod_multiples_vanish(ky, y, h);
    vstd::arithmetic::div_mod::lemma_mod_multiples_vanish(kz, z, d);
    assert(w * kx == kx * w) by (nonlinear_arith);
    assert(h * ky == ky * h) by (nonlinear_arith);
    assert(d * kz == kz * d) by (nonlinear_arith);
    vstd::arithmetic::div_mod::lemma_mod_twice(x, w);
    vstd::arithmetic::div_mod::lemma_mod_twice(y, h);
    vstd::arithmetic::div_mod::lemma_mod_twice(z, d);
}

/// Distinct in-range coordinates have distinct offsets, and `coords_of`
/// recovers the coordinates from the offset.
pub proof fn lemma_coords_of_offset(x: int, y: int, z: int, w: int, h: int, d: int)
    requires
        0 <= x < w,
        0 <= y < h,
        0 <= z < d,
    ensures
        coords_of(flat_offset(x, y, z, w, h, d), w, h) == (x, y, z),
{
    vstd::arithmetic::div_mod::lemma_small_mod(x as nat, w as nat);
    vstd::arithmetic::div_mod::lemma_small_mod(y as nat, h as nat);
    vstd::arithmetic::div_mod::lemma_small_mod(z as nat, d as nat);
    let o = x + y * w + z * w * h;
    assert(o == flat_offset(x, y, z, w, h, d));
    let r = x + y * w;
    assert(0 <= r < w * h) by (nonlinear_arith)
        requires
            0 <= x < w,
            0 <= y < h,
            r == x + y * w,
    ;
    assert(z * w * h == z * (w * h)) by (nonlinear_arith);
    assert(w * h > 0) by (nonlinear_arith)
        requires
            w > 0,
            h > 0,
    ;
    vstd::arithmetic::div_mod::lemma_fundamental_div_mod_converse(o, w * h, z, r);
    assert(o == (y + z * h) * w + x) by (nonlinear_arith)
        requires
            o == x + y * w + z * w * h,
    ;
    vstd::arithmetic::div_mod::lemma_fundamental_div_mod_converse(o, w, y + z * h, x);
    vstd::arithmetic::div_mod::lemma_fundamental_div_mod_converse(y + z * h, h, z, y);
}

/// Every offset below the cell count is the offset of its own coordinates.
pub proof fn lemma_offset_of_coords(o: int, w: int, h: int, d: int)
    requires
        w > 0,
        h > 0,
        d > 0,
        0 <= o < w * h * d,
    ensures
        ({
            let c = coords_of(o, w, h);
            &&& 0 <= c.0 < w
            &&& 0 <= c.1 < h
            &&& 0 <= c.2 < d
            &&& flat_offset(c.0, c.1, c.2, w, h, d) == o
        }),
{
    let c = coords_of(o, w, h);
    assert(w * h > 0) by (nonlinear_arith)
        requires
            w > 0,
            h > 0,
    ;
    vstd::arithmetic::div_mod::lemma_fundamental_div_mod(o, w);
    vstd::arithmetic::div_mod::lemma_fundamental_div_mod(o / w, h);
    vstd::arithmetic::div_mod::lemma_fundamental_div_mod(o, w * h);
    vstd::arithmetic::div_mod::lemma_mod_bound(o, w);
    vstd::arithmetic::div_mod::lemma_mod_bound(o / w, h);
    vstd::arithmetic::div_mod::lemma_div_denominator(o, w, h);
    assert(0 <= c.2 < d) by (nonlinear_arith)
        requires
            0 <= o < w * h * d,
            w * h > 0,
            o == (w * h) * c.2 + o % (w * h),
            0 <= o % (w * h) < w * h,
    ;
    vstd::arithmetic::div_mod::lemma_mod_bound(o, w * h);
    vstd::arithmetic::div_mod::lemma_small_mod(c.0 as nat, w as nat);
    vstd::arithmetic::div_mod::lemma_small_mod(c.1 as nat, h as nat);
    vstd::arithmetic::div_mod::lemma_small_mod(c.2 as nat, d as nat);
    assert(c.0 + c.1 * w + c.2 * w * h == o) by (nonlinear_arith)
        requires
            o == w * (o / w) + c.0,
            o / w == h * c.2 + c.1,
    ;
}

/// Reduces a coordinate to the range `0..n`.
pub fn wrap_coord(x: isize, n: usize) -> (r: usize)
    requires
        0 < n <= isize::MAX,
    ensures
        r == wrap(x as int, n as int),
        r < n,
{
    let m: isize = n as isize;
    proof {
        vstd::arithmetic::div_mod::lemma_mod_bound(x as int, m as int);
    }
    match x.checked_rem_euclid(m) {
        Some(r) => r as usize,
        None => 0,
    }
}

/// A `W * H * D` grid of cells with periodic boundaries on all three axes.
///
/// The view of a grid is the flat sequence of its cells; cell `(x, y, z)`
/// stands at position `flat_offset(x, y, z, W, H, D)`.
#[derive(Clone, Debug)]
pub struct Array3d<T, const W: usize, const H: usize, const D: usize> {
    cells: Vec<T>,
}

impl<T, const W: usize, const H: usize, const D: usize> View for Array3d<T, W, H, D> {
    type V = Seq<T>;

    closed spec fn view(&self) -> Seq<T> {
        self.cells@
    }
}

impl<T, const W: usize, const H: usize, const D: usize> Array3d<T, W, H, D> {
    /// The extents are positive and the cell count fits the machine's
    /// signed word.
    pub open spec fn dims_ok() -> bool {
        &&& W > 0
        &&& H > 0
        &&& D > 0
        &&& W * H * D <= isize::MAX
    }

    /// The number of cells.
    pub open spec fn spec_len() -> int {
        W * H * D
    }

    /// Well-formedness: valid extents and exactly one stored value per cell.
    pub open spec fn wf(&self) -> bool {
        &&& Self::dims_ok()
        &&& self@.len() == Self::spec_len()
    }

    /// Position of the cell named by `idx` in the flat buffer.
    pub open spec fn spec_offset(idx: Coord) -> int {
        flat_offset(idx.0 as int, idx.1 as int, idx.2 as int, W as int, H as int, D as int)
    }

    /// The value of the cell named by `idx`.
    pub open spec fn at(&self, idx: Coord) -> T {
        self@[Self::spec_offset(idx)]
    }

    proof fn lemma_dims()
        requires
            Self::dims_ok(),
        ensures
            W <= W * H <= W * H * D,
            H <= W * H,
            D <= W * H * D,
            W * H * D == (W * H) * D,
    {
        assert(W <= W * H && H <= W * H) by (nonlinear_arith)
            requires
                W >= 1,
                H >= 1,
        ;
        assert(D <= (W * H) * D) by (nonlinear_arith)
            requires
                W * H >= 1,
                D >= 1,
        ;
        assert(W * H <= (W * H) * D) by (nonlinear_arith)
            requires
                W * H >= 1,
                D >= 1,
        ;
    }

    /// Tests whether the extents are positive and the cell count fits the
    /// machine's signed word.
    pub fn check_dims() -> (ok: bool)
        ensures
            ok == Self::dims_ok(),
    {
        if W == 0 || H == 0 || D == 0 {
            return false;
        }
        assert(W * H <= W * H * D) by (nonlinear_arith)
            requires
                W >= 1,
                H >= 1,
                D >= 1,
        ;
        match W.checked_mul(H) {
            None => false,
            Some(wh) => match wh.checked_mul(D) {
                None => false,
                Some(n) => n <= isize::MAX as usize,
            },
        }
    }

    /// The number of cells, `W * H * D`.
    pub fn len() -> (n: usize)
        requires
            Self::dims_ok(),
        ensures
            n == Self::spec_len(),
    {
        proof {
            Self::lemma_dims();
        }
        let wh: usize = W * H;
        wh * D
    }

    /// Resolves a coordinate triple to its position in the flat buffer.
    /// Total over all integers: each coordinate wraps around its axis.
    pub fn offset(idx: Coord) -> (o: usize)
        requires
            Self::dims_ok(),
        ensures
            o == Self::spec_offset(idx),
            o < Self::spec_len(),
    {
        proof {
            Self::lemma_dims();
            lemma_flat_offset_bound(
                idx.0 as int,
                idx.1 as int,
                idx.2 as int,
                W as int,
                H as int,
                D as int,
            );
        }
        let x: usize = wrap_coord(idx.0, W);
        let y: usize = wrap_coord(idx.1, H);
        let z: usize = wrap_coord(idx.2, D);
        let wh: usize = W * H;
        assert(z * wh == z * W * H) by (nonlinear_arith)
            requires
                wh == W * H,
        ;
        x + y * W + z * wh
    }

    /// Builds a grid from its flat buffer, if the buffer holds exactly one
    /// value per cell.
    pub fn from_flat(cells: Vec<T>) -> (r: Option<Self>)
        requires
            Self::dims_ok(),
        ensures
            r is Some <==> cells@.len() == Self::spec_len(),
            r matches Some(g) ==> g.wf() && g@ == cells@,
    {
        if cells.len() == Self::len() {
            Some(Array3d { cells })
        } else {
            None
        }
    }

    /// Builds a grid by asking `f` once per cell, with the cell's in-range
    /// coordinates, in flat order.
    pub fn filled<F: Fn(Coord) -> T>(f: F) -> (g: Self)
        requires
            Self::dims_ok(),
            forall|x: isize, y: isize, z: isize|
                0 <= x < W && 0 <= y < H && 0 <= z < D ==> call_requires(f, ((x, y, z),)),
        ensures
            g.wf(),
            forall|x: isize, y: isize, z: isize|
                0 <= x < W && 0 <= y < H && 0 <= z < D ==> call_ensures(
                    f,
                    ((x, y, z),),
                    #[trigger] g.at((x, y, z)),
                ),
    {
        proof {
            Self::lemma_dims();
        }
        let n: usize = Self::len();
        let mut cells: Vec<T> = Vec::with_capacity(n);
        let mut z: usize = 0;
        while z < D
            invariant
                Self::dims_ok(),
                n == Self::spec_len(),
                z <= D,
                cells@.len() == z * (W * H),
                forall|x: isize, y: isize, z: isize|
                    0 <= x < W && 0 <= y < H && 0 <= z < D ==> call_requires(f, ((x, y, z),)),
                forall|o: int|
                    0 <= o < cells@.len() ==> call_ensures(
                        f,
                        (
                            (
                                coords_of(o, W as int, H as int).0 as isize,
                                coords_of(o, W as int, H as int).1 as isize,
                                coords_of(o, W as int, H as int).2 as isize,
                            ),
                        ),
                        #[trigger] cells@[o],
                    ),
            decreases D - z,
        {
            let mut y: usize = 0;
            while y < H
                invariant
                    Self::dims_ok(),
                    n == Self::spec_len(),
                    z < D,
                    y <= H,
                    cells@.len() == z * (W * H) + y * W,
                    forall|x: isize, y: isize, z: isize|
                        0 <= x < W && 0 <= y < H && 0 <= z < D ==> call_requires(f, ((x, y, z),)),
                    forall|o: int|
                        0 <= o < cells@.len() ==> call_ensures(
                            f,
                            (
                                (
                                    coords_of(o, W as int, H as int).0 as isize,
                                    coords_of(o, W as int, H as int).1 as isize,
                                    coords_of(o, W as int, H as int).2 as isize,
                                ),
                            ),
                            #[trigger] cells@[o],
                        ),
                decreases H - y,
            {
                let mut x: usize = 0;
                while x < W
                    invariant
                        Self::dims_ok(),
                        n == Self::spec_len(),
                        z < D,
                        y < H,
                        x <= W,
                        cells@.len() == z * (W * H) + y * W + x,
                        forall|x: isize, y: isize, z: isize|
                            0 <= x < W && 0 <= y < H && 0 <= z < D ==> call_requires(
                                f,
                                ((x, y, z),),
                            ),
                        forall|o: int|
                            0 <= o < cells@.len() ==> call_ensures(
                                f,
                                (
                                    (
                                        coords_of(o, W as int, H as int).0 as isize,
                                        coords_of(o, W as int, H as int).1 as isize,
                                        coords_of(o, W as int, H as int).2 as isize,
                                    ),
                                ),
                                #[trigger] cells@[o],
                            ),
                    decreases W - x,
                {
                    proof {
                        Self::lemma_dims();
                        lemma_coords_of_offset(
                            x as int,
                            y as int,
                            z as int,
                            W as int,
                            H as int,
                            D as int,
                        );
                        vstd::arithmetic::div_mod::lemma_small_mod(x as nat, W as nat);
                        vstd::arithmetic::div_mod::lemma_small_mod(y as nat, H as nat);
                        vstd::arithmetic::div_mod::lemma_small_mod(z as nat, D as nat);
                        assert(z * (W * H) == z * W * H) by (nonlinear_arith);
                    }
                    let v: T = f((x as isize, y as isize, z as isize));
                    cells.push(v);
                    x += 1;
                }
                y += 1;
                assert(z * (W * H) + (y - 1) * W + W == z * (W * H) + y * W) by (nonlinear_arith);
            }
            z += 1;
            assert((z - 1) * (W * H) + H * W == z * (W * H)) by (nonlinear_arith);
        }
        let g = Array3d { cells };
        proof {
            assert(D * (W * H) == W * H * D) by (nonlinear_arith);
            assert forall|x: isize, y: isize, z: isize|
                0 <= x < W && 0 <= y < H && 0 <= z < D implies call_ensures(
                f,
                ((x, y, z),),
                #[trigger] g.at((x, y, z)),
            ) by {
                lemma_coords_of_offset(x as int, y as int, z as int, W as int, H as int, D as int);
                lemma_flat_offset_bound(
                    x as int,
                    y as int,
                    z as int,
                    W as int,
                    H as int,
                    D as int,
                );
            }
        }
        g
    }

    /// Reads the cell named by `idx`; never fails, whatever the coordinates.
    pub fn get(&self, idx: Coord) -> (r: &T)
        requires
            self.wf(),
        ensures
            *r == self.at(idx),
    {
        let o: usize = Self::offset(idx);
        &self.cells[o]
    }

    /// Overwrites the cell named by `idx`; never fails, whatever the
    /// coordinates. All other cells keep their values.
    pub fn set(&mut self, idx: Coord, value: T)
        requires
            old(self).wf(),
        ensures
            final(self).wf(),
            final(self)@ == old(self)@.update(Self::spec_offset(idx), value),
    {
        let o: usize = Self::offset(idx);
        self.cells[o] = value;
    }

    /// The cells in flat order.
    pub fn as_flat_slice(&self) -> (s: &[T])
        ensures
            s@ == self@,
    {
        self.cells.as_slice()
    }

    /// The cells in flat order, for writing. What the caller leaves in the
    /// slice is what the grid holds afterwards.
    pub fn as_flat_slice_mut(&mut self) -> (s: &mut [T])
        ensures
            s@ == old(self)@,
            final(self)@ == final(s)@,
    {
        self.cells.as_mut_slice()
    }
}

impl<T: Copy + Default, const W: usize, const H: usize, const D: usize> Default for Array3d<T, W, H, D> {
    /// The grid of `new`, when the extents allow a grid at all.
    fn default() -> (g: Self)
        ensures
            Self::dims_ok() ==> g.wf() && forall|o: int|
                0 <= o < g@.len() ==> call_ensures(T::default, (), #[trigger] g@[o]),
    {
        if Self::check_dims() {
            Self::new()
        } else {
            Array3d { cells: Vec::new() }
        }
    }
}

impl<T, const W: usize, const H: usize, const D: usize> std::ops::Index<Coord> for Array3d<T, W, H, D> {
    type Output = T;

    /// Reads the cell named by `index`, as `grid[(x, y, z)]` does.
    fn index(&self, index: Coord) -> (r: &T)
        ensures
            *r == self.at(index),
    {
        self.get(index)
    }
}

impl<T, const W: usize, const H: usize, const D: usize> vstd::std_specs::core::IndexSpecImpl<Coord> for Array3d<T, W, H, D> {
    open spec fn index_req(&self, index: &Coord) -> bool {
        self.wf()
    }
}

impl<T, const W: usize, const H: usize, const D: usize> std::ops::IndexMut<Coord> for Array3d<T, W, H, D> {
    /// The cell named by `index`, for writing, as `grid[(x, y, z)] = v` needs it.
    fn index_mut(&mut self, index: Coord) -> (r: &mut T)
        requires
            old(self).wf(),
        ensures
            *r == old(self).at(index),
            final(self)@ == old(self)@.update(Self::spec_offset(index), *final(r)),
            final(self).wf(),
    {
        let o: usize = Self::offset(index);
        &mut self.cells[o]
    }
}

impl<T: Copy + Default, const W: usize, const H: usize, const D: usize> Array3d<T, W, H, D> {
    /// A grid whose every cell holds the default value of `T`.
    pub fn new() -> (g: Self)
        requires
            Self::dims_ok(),
        ensures
            g.wf(),
            forall|o: int| 0 <= o < g@.len() ==> call_ensures(T::default, (), #[trigger] g@[o]),
    {
        let n: usize = Self::len();
        let fill: T = T::default();
        let mut cells: Vec<T> = Vec::with_capacity(n);
        let mut i: usize = 0;
        while i < n
            invariant
                i <= n,
                cells@.len() == i,
                call_ensures(T::default, (), fill),
                forall|o: int| 0 <= o < i ==> cells@[o] == fill,
            decreases n - i,
        {
            cells.push(fill);
            i += 1;
        }
        Array3d { cells }
    }
}

} // verus!
