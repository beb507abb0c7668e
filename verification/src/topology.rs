//! The topology builder: a rectangular grid of particles hung from its two top
//! corners, joined along both axes and across both diagonals of every cell.
//!
//! Particles are numbered column by column, `index = x * particles_y + y`. The
//! constraints come in a fixed order, on which the Gauss-Seidel solver depends:
//! first the links along each column, then the links along each row, then the two
//! diagonals of each cell.

use crate::cloth::{constraint_between, Cloth, ClothView};
use crate::fixed::{fx_div, fx_int, fx_mul, fx_neg, fx_sub, Fixed};
use crate::vec3::{Vec3, V3};
use vstd::prelude::*;

verus! {

/// Half a unit, in raw units: the grid is centred on the origin.
pub const HALF: i64 = 500_000_000;

/// Slope of the sheet out of its plane, in raw units: one hundredth.
pub const TILT: i64 = 10_000_000;

/// Whether a grid of these dimensions can be built: at least two particles each
/// way, no more each way than there are raw units in the sheet's extent, so that
/// no two particles share a place, and few enough in all that every particle and
/// constraint can be numbered.
pub open spec fn grid_ok(nx: int, ny: int) -> bool {
    &&& 2 <= nx <= 1_000_000_000
    &&& 2 <= ny <= 1_000_000_000
    &&& nx * ny * 4 <= usize::MAX
}

/// Position of the particle in column `i` and row `j`: the columns spread over one
/// unit from left to right, the rows over one unit from the top down, and the sheet
/// leans out of its plane by a hundredth of the horizontal coordinate.
pub open spec fn grid_position(nx: int, ny: int, i: int, j: int) -> V3 {
    let x = fx_sub(fx_div(fx_int(i), fx_int(nx)), 500_000_000);
    let y = fx_sub(fx_div(fx_int(j), fx_int(ny)), 500_000_000);
    V3 { x, y: fx_neg(y), z: fx_mul(x, 10_000_000) }
}

/// Whether the particle in column `i` and row `j` is an anchor: the two ends of
/// the top row are.
pub open spec fn grid_anchor(nx: int, i: int, j: int) -> bool {
    j == 0 && (i == 0 || i == nx - 1)
}

/// The `k`-th link along the columns: a particle and the one below it.
pub open spec fn vertical_link(ny: int, k: int) -> (int, int) {
    let i = k / (ny - 1);
    let j = k % (ny - 1);
    (i * ny + j, i * ny + j + 1)
}

/// The `k`-th link along the rows: a particle and the one to its right.
pub open spec fn horizontal_link(ny: int, k: int) -> (int, int) {
    let i = k / ny;
    let j = k % ny;
    (i * ny + j, (i + 1) * ny + j)
}

/// The `k`-th diagonal link. Cell `k / 2` gives first the diagonal from its top
/// left corner, then the one from its top right corner.
pub open spec fn shear_link(ny: int, k: int) -> (int, int) {
    let cell = k / 2;
    let i = cell / (ny - 1);
    let j = cell % (ny - 1);
    if k % 2 == 0 {
        (i * ny + j, (i + 1) * ny + j + 1)
    } else {
        ((i + 1) * ny + j, i * ny + j + 1)
    }
}

/// Number of links along the columns.
pub open spec fn vertical_count(nx: int, ny: int) -> int {
    nx * (ny - 1)
}

/// Number of links along the rows.
pub open spec fn horizontal_count(nx: int, ny: int) -> int {
    (nx - 1) * ny
}

/// Number of diagonal links.
pub open spec fn shear_count(nx: int, ny: int) -> int {
    (nx - 1) * (ny - 1) * 2
}

/// Endpoints of the `m`-th constraint of the grid.
pub open spec fn grid_link(nx: int, ny: int, m: int) -> (int, int) {
    if m < vertical_count(nx, ny) {
        vertical_link(ny, m)
    } else if m < vertical_count(nx, ny) + horizontal_count(nx, ny) {
        horizontal_link(ny, m - vertical_count(nx, ny))
    } else {
        shear_link(ny, m - vertical_count(nx, ny) - horizontal_count(nx, ny))
    }
}

/// Positions of all particles of the grid, by index.
pub open spec fn grid_positions(nx: int, ny: int) -> Seq<V3> {
    Seq::new((nx * ny) as nat, |k: int| grid_position(nx, ny, k / ny, k % ny))
}

/// The grid of `nx` by `ny` particles, at rest.
pub open spec fn grid(nx: int, ny: int) -> ClothView {
    ClothView {
        current: grid_positions(nx, ny),
        previous: grid_positions(nx, ny),
        fixed: Seq::new((nx * ny) as nat, |k: int| grid_anchor(nx, k / ny, k % ny)),
        constraints: Seq::new(
            (vertical_count(nx, ny) + horizontal_count(nx, ny) + shear_count(nx, ny)) as nat,
            |m: int|
                constraint_between(
                    grid_positions(nx, ny),
                    grid_link(nx, ny, m).0,
                    grid_link(nx, ny, m).1,
                ),
        ),
    }
}

/// Column and row of the `k`-th position of an `a` by `b` arrangement.
pub proof fn lemma_cell(k: int, a: int, b: int)
    requires
        0 <= k < a * b,
        0 < b,
    ensures
        0 <= k / b < a,
        0 <= k % b < b,
        (k / b) * b + k % b == k,
{
    vstd::arithmetic::div_mod::lemma_fundamental_div_mod(k, b);
    vstd::arithmetic::div_mod::lemma_mod_bound(k, b);
    let q = k / b;
    assert(q >= 0 && q < a) by (nonlinear_arith)
        requires
            0 <= k < a * b,
            0 < b,
            k == b * q + k % b,
            0 <= k % b < b,
    ;
    assert(q * b == b * q) by (nonlinear_arith);
}

/// The particle in column `i` and row `j` has an index below the particle count.
pub proof fn lemma_index_bound(i: int, j: int, a: int, b: int)
    requires
        0 <= i < a,
        0 <= j < b,
    ensures
        0 <= i * b + j < a * b,
        (i * b + j) / b == i,
        (i * b + j) % b == j,
{
    assert(0 <= i * b && i * b + b <= a * b) by (nonlinear_arith)
        requires
            0 <= i < a,
            0 < b,
    ;
    vstd::arithmetic::div_mod::lemma_fundamental_div_mod_converse(i * b + j, b, i, j);
}

/// How far column or row `i` of `n` lies from the first, in raw units: the share
/// `i / n` of one unit, rounded down.
pub open spec fn grid_offset(i: int, n: int) -> int {
    (i * 1_000_000_000) / n
}

/// A coordinate of the grid is its offset less half a unit, and the offset is less
/// than a whole unit.
pub proof fn lemma_grid_coordinate(i: int, n: int)
    requires
        2 <= n <= 1_000_000_000,
        0 <= i < n,
    ensures
        fx_sub(fx_div(fx_int(i), fx_int(n)), 500_000_000) == grid_offset(i, n) - 500_000_000,
        0 <= grid_offset(i, n) < 1_000_000_000,
{
    reveal(fx_div);
    reveal(fx_sub);
    let whole = i * 1_000_000_000;
    vstd::arithmetic::div_mod::lemma_div_denominator(whole * 1_000_000_000, 1_000_000_000, n);
    assert(0 <= whole / n < 1_000_000_000) by (nonlinear_arith)
        requires
            0 <= i < n,
            whole == i * 1_000_000_000,
    ;
}

/// Later columns and rows lie strictly further out: the grid is never so fine that
/// two of them round to the same offset.
pub proof fn lemma_grid_offsets_apart(i: int, j: int, n: int)
    requires
        2 <= n <= 1_000_000_000,
        0 <= i < j,
    ensures
        grid_offset(i, n) < grid_offset(j, n),
{
    vstd::arithmetic::div_mod::lemma_div_plus_one(i * 1_000_000_000, n);
    vstd::arithmetic::div_mod::lemma_div_is_ordered(
        n + i * 1_000_000_000,
        j * 1_000_000_000,
        n,
    );
}

/// The position of a particle of the grid, written out, and the square it lies in:
/// between minus a half and a half both across and down.
pub proof fn lemma_grid_position(nx: int, ny: int, i: int, j: int)
    requires
        2 <= nx <= 1_000_000_000,
        2 <= ny <= 1_000_000_000,
        0 <= i < nx,
        0 <= j < ny,
    ensures
        grid_position(nx, ny, i, j).x == grid_offset(i, nx) - 500_000_000,
        grid_position(nx, ny, i, j).y == 500_000_000 - grid_offset(j, ny),
        -500_000_000 <= grid_position(nx, ny, i, j).x < 500_000_000,
        -500_000_000 < grid_position(nx, ny, i, j).y <= 500_000_000,
        -5_000_000 <= grid_position(nx, ny, i, j).z <= 5_000_000,
{
    lemma_grid_coordinate(i, nx);
    lemma_grid_coordinate(j, ny);
    reveal(fx_neg);
    reveal(fx_mul);
}

/// The endpoints of every constraint of the grid are two different particles of
/// the grid.
pub proof fn lemma_grid_link(nx: int, ny: int, m: int)
    requires
        2 <= nx,
        2 <= ny,
        0 <= m < vertical_count(nx, ny) + horizontal_count(nx, ny) + shear_count(nx, ny),
    ensures
        0 <= grid_link(nx, ny, m).0 < nx * ny,
        0 <= grid_link(nx, ny, m).1 < nx * ny,
        grid_link(nx, ny, m).0 != grid_link(nx, ny, m).1,
{
    let v = vertical_count(nx, ny);
    let h = horizontal_count(nx, ny);
    assert(v >= 0 && h >= 0) by (nonlinear_arith)
        requires
            v == nx * (ny - 1),
            h == (nx - 1) * ny,
            nx >= 2,
            ny >= 2,
    ;
    if m < v {
        lemma_cell(m, nx, ny - 1);
        let i = m / (ny - 1);
        let j = m % (ny - 1);
        lemma_index_bound(i, j, nx, ny);
        lemma_index_bound(i, j + 1, nx, ny);
    } else if m < v + h {
        let k = m - v;
        lemma_cell(k, nx - 1, ny);
        let i = k / ny;
        let j = k % ny;
        lemma_index_bound(i, j, nx, ny);
        lemma_index_bound(i + 1, j, nx, ny);
        assert((i + 1) * ny + j == i * ny + j + ny) by (nonlinear_arith);
    } else {
        let k = m - v - h;
        let cell = k / 2;
        assert(0 <= cell < (nx - 1) * (ny - 1));
        lemma_cell(cell, nx - 1, ny - 1);
        let i = cell / (ny - 1);
        let j = cell % (ny - 1);
        lemma_index_bound(i, j, nx, ny);
        lemma_index_bound(i + 1, j + 1, nx, ny);
        lemma_index_bound(i + 1, j, nx, ny);
        lemma_index_bound(i, j + 1, nx, ny);
        assert((i + 1) * ny + j == i * ny + j + ny) by (nonlinear_arith);
    }
}

fn grid_point(nx: i32, ny: i32, i: i32, j: i32) -> (r: Vec3)
    requires
        nx >= 2,
        ny >= 2,
    ensures
        r@ == grid_position(nx as int, ny as int, i as int, j as int),
{
    let x: Fixed = Fixed::from_int(i).div(Fixed::from_int(nx)).sub(Fixed::from_raw(HALF));
    let y: Fixed = Fixed::from_int(j).div(Fixed::from_int(ny)).sub(Fixed::from_raw(HALF));
    Vec3::new(x, y.neg(), x.mul(Fixed::from_raw(TILT)))
}

/// The first `m` constraints of the cloth are those of the grid, over the grid's
/// particles.
pub open spec fn linked_up_to(c: ClothView, nx: int, ny: int, m: int) -> bool {
    &&& c.current == grid(nx, ny).current
    &&& c.previous == grid(nx, ny).previous
    &&& c.fixed == grid(nx, ny).fixed
    &&& c.constraints.len() == m
    &&& forall|q: int| 0 <= q < m ==> #[trigger] c.constraints[q] == grid(nx, ny).constraints[q]
}

/// Places the particles of the grid, column by column.
fn place_particles(nx: i32, ny: i32) -> (cloth: Cloth)
    requires
        grid_ok(nx as int, ny as int),
    ensures
        cloth.wf(),
        linked_up_to(cloth@, nx as int, ny as int, 0),
{
    let w: usize = nx as usize;
    let h: usize = ny as usize;
    assert(w * h <= usize::MAX) by (nonlinear_arith)
        requires
            w * h * 4 <= usize::MAX,
            w >= 2,
            h >= 2,
    ;
    let n: usize = w * h;
    let mut cloth: Cloth = Cloth::new();
    let mut k: usize = 0;
    while k < n
        invariant
            k <= n,
            n == w * h,
            w == nx,
            h == ny,
            nx >= 2,
            ny >= 2,
            cloth.wf(),
            cloth@.constraints.len() == 0,
            cloth@.current.len() == k,
            cloth@.previous == cloth@.current,
            forall|q: int|
                0 <= q < k ==> #[trigger] cloth@.current[q] == grid_position(
                    nx as int,
                    ny as int,
                    q / (ny as int),
                    q % (ny as int),
                ),
            forall|q: int|
                0 <= q < k ==> #[trigger] cloth@.fixed[q] == grid_anchor(
                    nx as int,
                    q / (ny as int),
                    q % (ny as int),
                ),
        decreases n - k,
    {
        let i: usize = k / h;
        let j: usize = k % h;
        proof {
            lemma_cell(k as int, w as int, h as int);
        }
        let point: Vec3 = grid_point(nx, ny, i as i32, j as i32);
        let anchored: bool = j == 0 && (i == 0 || i == w - 1);
        cloth.add_particle(point, anchored);
        k = k + 1;
    }
    assert(cloth@.current =~= grid(nx as int, ny as int).current);
    assert(cloth@.fixed =~= grid(nx as int, ny as int).fixed);
    cloth
}

/// Appends the links along the columns.
fn link_columns(cloth: &mut Cloth, nx: i32, ny: i32)
    requires
        grid_ok(nx as int, ny as int),
        old(cloth).wf(),
        linked_up_to(old(cloth)@, nx as int, ny as int, 0),
    ensures
        final(cloth).wf(),
        linked_up_to(final(cloth)@, nx as int, ny as int, vertical_count(nx as int, ny as int)),
{
    let w: usize = nx as usize;
    let h: usize = ny as usize;
    assert(w * (h - 1) <= w * h <= usize::MAX) by (nonlinear_arith)
        requires
            w * h * 4 <= usize::MAX,
            w >= 2,
            h >= 2,
    ;
    let count: usize = w * (h - 1);
    let mut k: usize = 0;
    while k < count
        invariant
            k <= count,
            count == vertical_count(nx as int, ny as int),
            w == nx,
            h == ny,
            grid_ok(nx as int, ny as int),
            cloth.wf(),
            linked_up_to(cloth@, nx as int, ny as int, k as int),
        decreases count - k,
    {
        let i: usize = k / (h - 1);
        let j: usize = k % (h - 1);
        proof {
            lemma_cell(k as int, w as int, h - 1);
            lemma_index_bound(i as int, j as int, w as int, h as int);
            lemma_index_bound(i as int, j + 1, w as int, h as int);
        }
        let p0: usize = i * h + j;
        let added: bool = cloth.add_constraint(p0, p0 + 1);
        assert(added);
        assert(grid_link(nx as int, ny as int, k as int) == (p0 as int, p0 + 1));
        k = k + 1;
    }
}

/// Appends the links along the rows.
fn link_rows(cloth: &mut Cloth, nx: i32, ny: i32)
    requires
        grid_ok(nx as int, ny as int),
        old(cloth).wf(),
        linked_up_to(old(cloth)@, nx as int, ny as int, vertical_count(nx as int, ny as int)),
    ensures
        final(cloth).wf(),
        linked_up_to(
            final(cloth)@,
            nx as int,
            ny as int,
            vertical_count(nx as int, ny as int) + horizontal_count(nx as int, ny as int),
        ),
{
    let w: usize = nx as usize;
    let h: usize = ny as usize;
    assert((w - 1) * h <= w * h <= usize::MAX) by (nonlinear_arith)
        requires
            w * h * 4 <= usize::MAX,
            w >= 2,
            h >= 2,
    ;
    let count: usize = (w - 1) * h;
    let ghost base = vertical_count(nx as int, ny as int);
    let mut k: usize = 0;
    while k < count
        invariant
            k <= count,
            count == horizontal_count(nx as int, ny as int),
            base == vertical_count(nx as int, ny as int),
            w == nx,
            h == ny,
            grid_ok(nx as int, ny as int),
            cloth.wf(),
            linked_up_to(cloth@, nx as int, ny as int, base + k),
        decreases count - k,
    {
        let i: usize = k / h;
        let j: usize = k % h;
        proof {
            lemma_cell(k as int, w - 1, h as int);
            lemma_index_bound(i as int, j as int, w as int, h as int);
            lemma_index_bound(i + 1, j as int, w as int, h as int);
            assert(base >= 0) by (nonlinear_arith)
                requires
                    base == nx * (ny - 1),
                    nx >= 2,
                    ny >= 2,
            ;
        }
        let p0: usize = i * h + j;
        let p1: usize = (i + 1) * h + j;
        let added: bool = cloth.add_constraint(p0, p1);
        assert(added);
        assert(grid_link(nx as int, ny as int, base + k) == (p0 as int, p1 as int));
        k = k + 1;
    }
}

/// Appends the two diagonal links of every cell.
fn link_diagonals(cloth: &mut Cloth, nx: i32, ny: i32)
    requires
        grid_ok(nx as int, ny as int),
        old(cloth).wf(),
        linked_up_to(
            old(cloth)@,
            nx as int,
            ny as int,
            vertical_count(nx as int, ny as int) + horizontal_count(nx as int, ny as int),
        ),
    ensures
        final(cloth).wf(),
        linked_up_to(
            final(cloth)@,
            nx as int,
            ny as int,
            vertical_count(nx as int, ny as int) + horizontal_count(nx as int, ny as int)
                + shear_count(nx as int, ny as int),
        ),
{
    let w: usize = nx as usize;
    let h: usize = ny as usize;
    assert((w - 1) * (h - 1) <= w * h <= usize::MAX) by (nonlinear_arith)
        requires
            w * h * 4 <= usize::MAX,
            w >= 2,
            h >= 2,
    ;
    let cells: usize = (w - 1) * (h - 1);
    let ghost base = vertical_count(nx as int, ny as int) + horizontal_count(
        nx as int,
        ny as int,
    );
    let mut cell: usize = 0;
    while cell < cells
        invariant
            cell <= cells,
            cells * 2 == shear_count(nx as int, ny as int),
            base == vertical_count(nx as int, ny as int) + horizontal_count(nx as int, ny as int),
            w == nx,
            h == ny,
            grid_ok(nx as int, ny as int),
            cloth.wf(),
            linked_up_to(cloth@, nx as int, ny as int, base + cell * 2),
        decreases cells - cell,
    {
        let i: usize = cell / (h - 1);
        let j: usize = cell % (h - 1);
        proof {
            lemma_cell(cell as int, w - 1, h - 1);
            lemma_index_bound(i as int, j as int, w as int, h as int);
            lemma_index_bound(i + 1, j + 1, w as int, h as int);
            lemma_index_bound(i + 1, j as int, w as int, h as int);
            lemma_index_bound(i as int, j + 1, w as int, h as int);
            assert(base >= 0) by (nonlinear_arith)
                requires
                    base == nx * (ny - 1) + (nx - 1) * ny,
                    nx >= 2,
                    ny >= 2,
            ;
        }
        let top_left: usize = i * h + j;
        let bottom_right: usize = (i + 1) * h + j + 1;
        let top_right: usize = (i + 1) * h + j;
        let bottom_left: usize = i * h + j + 1;
        let first: bool = cloth.add_constraint(top_left, bottom_right);
        assert(first);
        assert(grid_link(nx as int, ny as int, base + cell * 2) == (
            top_left as int,
            bottom_right as int,
        ));
        let second: bool = cloth.add_constraint(top_right, bottom_left);
        assert(second);
        assert(grid_link(nx as int, ny as int, base + cell * 2 + 1) == (
            top_right as int,
            bottom_left as int,
        ));
        cell = cell + 1;
    }
}

/// Whether a grid of these dimensions can be built.
pub fn grid_fits(nx: i32, ny: i32) -> (r: bool)
    ensures
        r == grid_ok(nx as int, ny as int),
{
    if nx < 2 || ny < 2 || nx > 1_000_000_000 || ny > 1_000_000_000 {
        return false;
    }
    assert(0 <= nx * ny <= 0x4000_0000_0000_0000) by (nonlinear_arith)
        requires
            2 <= nx <= 0x7fff_ffff,
            2 <= ny <= 0x7fff_ffff,
    ;
    let cells: u128 = nx as u128 * ny as u128;
    cells * 4 <= usize::MAX as u128
}

impl Cloth {
    /// Builds the grid of `nx` by `ny` particles at rest, or nothing when the
    /// dimensions are not acceptable.
    pub fn grid(nx: i32, ny: i32) -> (r: Option<Cloth>)
        ensures
            r is Some <==> grid_ok(nx as int, ny as int),
            r matches Some(c) ==> c.wf() && c@ == grid(nx as int, ny as int),
    {
        if !grid_fits(nx, ny) {
            return None;
        }
        let mut cloth: Cloth = place_particles(nx, ny);
        link_columns(&mut cloth, nx, ny);
        link_rows(&mut cloth, nx, ny);
        link_diagonals(&mut cloth, nx, ny);
        assert(cloth@.constraints =~= grid(nx as int, ny as int).constraints);
        Some(cloth)
    }
}

} // verus!
