//! Uniform-grid spatial index over particle positions.
//!
//! Positions are fixed-point integer coordinates. Space is cut into cubic
//! cells whose edge equals the smoothing radius; each particle gets a
//! (flattened cell id, particle index) record. After the records are sorted
//! by cell id, a per-cell start-offset table bounds each cell's contiguous
//! run, and a neighbor query scans the 3x3x3 block of cells around a
//! particle's own cell.

use vstd::prelude::*;
use crate::radix_sort::{KeyVal, sorted_keys};

verus! {

/// A fixed-point position or vector: integer coordinates.
#[derive(Clone, Copy, PartialEq, Eq, Structural, Debug)]
pub struct Pos {
    pub x: i64,
    pub y: i64,
    pub z: i64,
}

/// Cells per axis of the uniform grid.
#[derive(Clone, Copy, PartialEq, Eq, Structural, Debug)]
pub struct GridDims {
    pub x: u32,
    pub y: u32,
    pub z: u32,
}

/// Every axis has at least one cell and the flattened ids fit in a `u32`.
pub open spec fn dims_wf(d: GridDims) -> bool {
    1 <= d.x && 1 <= d.y && 1 <= d.z && d.x * d.y * d.z <= u32::MAX
}

/// Total number of grid cells.
pub open spec fn cell_count_spec(d: GridDims) -> int {
    (d.x * d.y * d.z) as int
}

/// All coordinates are nonnegative and small enough for squared distances.
pub open spec fn pos_bounded(p: Pos) -> bool {
    0 <= p.x <= 0x4000_0000_0000 && 0 <= p.y <= 0x4000_0000_0000 && 0 <= p.z <= 0x4000_0000_0000
}

/// The smoothing radius is positive and small enough to square.
pub open spec fn radius_ok(h: i64) -> bool {
    0 < h <= 0x4000_0000_0000
}

/// The squared smoothing radius.
pub fn radius_sq(h: i64) -> (r: i128)
    requires
        radius_ok(h),
    ensures
        r as int == (h as int) * (h as int),
        r >= 0,
{
    proof {
        assert(0 <= (h as int) * (h as int) <= 0x1000_0000_0000_0000_0000_0000_0000)
            by (nonlinear_arith)
            requires
                0 < h <= 0x4000_0000_0000,
        ;
    }
    (h as i128) * (h as i128)
}

/// Cell coordinate along one axis: the position divided by the cell edge,
/// clamped to the last cell of the axis.
pub open spec fn axis_cell(c: i64, h: i64, dim: u32) -> int {
    if (c as int) / (h as int) < (dim as int) - 1 {
        (c as int) / (h as int)
    } else {
        (dim as int) - 1
    }
}

/// The cell coordinates of a position.
pub open spec fn cell_triple(p: Pos, h: i64, d: GridDims) -> (int, int, int) {
    (axis_cell(p.x, h, d.x), axis_cell(p.y, h, d.y), axis_cell(p.z, h, d.z))
}

/// Row-major flattening of cell coordinates into one id.
pub open spec fn flatten_spec(a: int, b: int, c: int, d: GridDims) -> int {
    a * (d.y * d.z) + b * d.z + c
}

/// The flattened cell id of a position.
pub open spec fn cell_key_spec(p: Pos, h: i64, d: GridDims) -> int {
    flatten_spec(
        axis_cell(p.x, h, d.x),
        axis_cell(p.y, h, d.y),
        axis_cell(p.z, h, d.z),
        d,
    )
}

/// Squared Euclidean distance between two positions.
pub open spec fn dist2_spec(p: Pos, q: Pos) -> int {
    (p.x - q.x) * (p.x - q.x) + (p.y - q.y) * (p.y - q.y) + (p.z - q.z) * (p.z - q.z)
}

/// Flattened ids stay below the cell count and determine the coordinates.
pub proof fn lemma_flatten_bounds(a: int, b: int, c: int, d: GridDims)
    requires
        dims_wf(d),
        0 <= a < d.x,
        0 <= b < d.y,
        0 <= c < d.z,
    ensures
        0 <= flatten_spec(a, b, c, d) < cell_count_spec(d),
{
    assert(0 <= a * (d.y * d.z) + b * d.z + c < d.x * d.y * d.z) by (nonlinear_arith)
        requires
            0 <= a < d.x,
            0 <= b < d.y,
            0 <= c < d.z,
    ;
}

/// Flattening is injective on in-grid coordinates.
pub proof fn lemma_flatten_injective(a1: int, b1: int, c1: int, a2: int, b2: int, c2: int, d: GridDims)
    requires
        dims_wf(d),
        0 <= a1 < d.x,
        0 <= b1 < d.y,
        0 <= c1 < d.z,
        0 <= a2 < d.x,
        0 <= b2 < d.y,
        0 <= c2 < d.z,
        flatten_spec(a1, b1, c1, d) == flatten_spec(a2, b2, c2, d),
    ensures
        a1 == a2 && b1 == b2 && c1 == c2,
{
    assert(a1 == a2 && b1 == b2 && c1 == c2) by (nonlinear_arith)
        requires
            0 <= a1 < d.x,
            0 <= b1 < d.y,
            0 <= c1 < d.z,
            0 <= a2 < d.x,
            0 <= b2 < d.y,
            0 <= c2 < d.z,
            a1 * (d.y * d.z) + b1 * d.z + c1 == a2 * (d.y * d.z) + b2 * d.z + c2,
            1 <= d.y,
            1 <= d.z,
    ;
}

/// Positions within one cell edge of each other land in the same or an
/// adjacent cell along each axis, clamping included.
pub proof fn lemma_axis_cell_close(a: i64, b: i64, h: i64, dim: u32)
    requires
        h > 0,
        0 <= a,
        0 <= b,
        -(h as int) <= a - b <= h as int,
        dim >= 1,
    ensures
        -1 <= axis_cell(a, h, dim) - axis_cell(b, h, dim) <= 1,
{
    let ai = a as int;
    let bi = b as int;
    let hi = h as int;
    assert(ai / hi <= (bi + hi) / hi) by {
        vstd::arithmetic::div_mod::lemma_div_is_ordered(ai, bi + hi, hi);
    };
    assert((bi + hi) / hi == bi / hi + 1) by {
        vstd::arithmetic::div_mod::lemma_div_plus_one(bi, hi);
    };
    assert(bi / hi <= (ai + hi) / hi) by {
        vstd::arithmetic::div_mod::lemma_div_is_ordered(bi, ai + hi, hi);
    };
    assert((ai + hi) / hi == ai / hi + 1) by {
        vstd::arithmetic::div_mod::lemma_div_plus_one(ai, hi);
    };
    vstd::arithmetic::div_mod::lemma_div_pos_is_pos(ai, hi);
    vstd::arithmetic::div_mod::lemma_div_pos_is_pos(bi, hi);
}

/// The in-grid cell coordinate of one position axis.
fn axis_cell_exec(c: i64, h: i64, dim: u32) -> (r: u32)
    requires
        h > 0,
        0 <= c,
        dim >= 1,
    ensures
        r as int == axis_cell(c, h, dim),
        r < dim,
{
    let q = c / h;
    proof {
        vstd::arithmetic::div_mod::lemma_div_pos_is_pos(c as int, h as int);
    }
    if q < (dim - 1) as i64 {
        q as u32
    } else {
        dim - 1
    }
}

/// The flattened cell id of a position under the grid.
pub fn cell_key(p: Pos, h: i64, d: GridDims) -> (k: u32)
    requires
        h > 0,
        pos_bounded(p),
        dims_wf(d),
    ensures
        k as int == cell_key_spec(p, h, d),
        k < cell_count_spec(d),
{
    let a = axis_cell_exec(p.x, h, d.x);
    let b = axis_cell_exec(p.y, h, d.y);
    let c = axis_cell_exec(p.z, h, d.z);
    proof {
        lemma_flatten_bounds(a as int, b as int, c as int, d);
        assert(d.y * d.z <= d.x * d.y * d.z && a * (d.y * d.z) <= a * (d.y * d.z) + b * d.z + c)
            by (nonlinear_arith)
            requires
                1 <= d.x,
                0 <= d.y,
                0 <= d.z,
                0 <= a,
                0 <= b,
                0 <= c,
        ;
    }
    let k64: u64 = (a as u64) * ((d.y as u64) * (d.z as u64)) + (b as u64) * (d.z as u64)
        + (c as u64);
    k64 as u32
}

/// The key/value records the fill kernel writes: one per particle, keyed by
/// its cell, valued by its index.
pub open spec fn lookup_pairs_spec(ps: Seq<Pos>, h: i64, d: GridDims) -> Seq<KeyVal> {
    Seq::new(
        ps.len(),
        |i: int| KeyVal { key: cell_key_spec(ps[i], h, d) as u32, val: i as u32 },
    )
}

/// Fill pass: one record per particle, (cell id, particle index).
pub fn fill_spatial_lookup(positions: &Vec<Pos>, h: i64, d: GridDims) -> (pairs: Vec<KeyVal>)
    requires
        h > 0,
        dims_wf(d),
        positions@.len() <= u32::MAX,
        forall|i: int| 0 <= i < positions@.len() ==> pos_bounded(#[trigger] positions@[i]),
    ensures
        pairs@ == lookup_pairs_spec(positions@, h, d),
        pairs@.len() == positions@.len(),
{
    let mut pairs: Vec<KeyVal> = Vec::new();
    let mut i: usize = 0;
    while i < positions.len()
        invariant
            h > 0,
            dims_wf(d),
            positions@.len() <= u32::MAX,
            forall|j: int| 0 <= j < positions@.len() ==> pos_bounded(#[trigger] positions@[j]),
            i <= positions@.len(),
            pairs@ == lookup_pairs_spec(positions@, h, d).take(i as int),
        decreases positions@.len() - i,
    {
        let k = cell_key(positions[i], h, d);
        pairs.push(KeyVal { key: k, val: i as u32 });
        proof {
            assert(pairs@ =~= lookup_pairs_spec(positions@, h, d).take(i + 1int));
        }
        i = i + 1;
    }
    proof {
        assert(lookup_pairs_spec(positions@, h, d).take(positions@.len() as int)
            =~= lookup_pairs_spec(positions@, h, d));
    }
    pairs
}

/// The start-index table is correct for the sorted records: each entry is
/// the offset of the first record with that cell id, or the record count
/// for a cell with no records.
pub open spec fn index_wf(pairs: Seq<KeyVal>, index: Seq<u32>, cell_total: int) -> bool {
    &&& index.len() == cell_total
    &&& forall|c: int| 0 <= c < cell_total ==> #[trigger] index[c] <= pairs.len()
    &&& forall|c: int, i: int|
        #![trigger index[c], pairs[i]]
        0 <= c < cell_total && 0 <= i < pairs.len() && pairs[i].key == c ==> index[c] <= i
    &&& forall|c: int|
        0 <= c < cell_total && #[trigger] index[c] < pairs.len() ==> pairs[index[c] as int].key
            == c
}

/// Build-index pass: walk the sorted records once; wherever a record's cell
/// id differs from its predecessor's (or the record is first), note the
/// offset as that cell's start. Cells with no records keep the record count
/// as an "empty" mark.
pub fn build_cell_index(pairs: &Vec<KeyVal>, cell_total: usize) -> (index: Vec<u32>)
    requires
        sorted_keys(pairs@),
        pairs@.len() <= u32::MAX,
        forall|i: int| 0 <= i < pairs@.len() ==> (#[trigger] pairs@[i].key) < cell_total,
    ensures
        index_wf(pairs@, index@, cell_total as int),
{
    let n = pairs.len();
    let mut index: Vec<u32> = vec![n as u32; cell_total];
    let mut i: usize = 0;
    while i < n
        invariant
            sorted_keys(pairs@),
            n == pairs@.len(),
            n <= u32::MAX,
            forall|j: int| 0 <= j < pairs@.len() ==> (#[trigger] pairs@[j].key) < cell_total,
            i <= n,
            index@.len() == cell_total,
            forall|c: int| 0 <= c < cell_total ==> #[trigger] index@[c] <= n,
            forall|c: int|
                0 <= c < cell_total && #[trigger] index@[c] < n ==> index@[c] < i
                    && pairs@[index@[c] as int].key == c,
            forall|j: int| 0 <= j < i ==> #[trigger] index@[pairs@[j].key as int] <= j,
        decreases n - i,
    {
        let k = pairs[i].key as usize;
        if i == 0 || pairs[i - 1].key as usize != k {
            proof {
                assert forall|j: int| 0 <= j < i implies pairs@[j].key != k by {
                    assert(pairs@[j].key <= pairs@[i - 1].key);
                }
            }
            index.set(k, i as u32);
        }
        i = i + 1;
    }
    proof {
        assert forall|c: int, j: int|
            #![trigger index@[c], pairs@[j]]
            0 <= c < cell_total && 0 <= j < pairs@.len() && pairs@[j].key == c implies index@[c]
            <= j by {
            assert(index@[pairs@[j].key as int] <= j);
        }
    }
    index
}

/// The contiguous run of records in cell `c`: all records in `[lo, hi)`
/// carry key `c`, and no record outside does.
pub fn cell_range(pairs: &Vec<KeyVal>, index: &Vec<u32>, c: u32) -> (r: (usize, usize))
    requires
        sorted_keys(pairs@),
        pairs@.len() <= u32::MAX,
        index_wf(pairs@, index@, index@.len() as int),
        (c as int) < index@.len(),
    ensures
        r.0 <= r.1 <= pairs@.len(),
        forall|i: int| r.0 <= i < r.1 ==> (#[trigger] pairs@[i].key) == c,
        forall|i: int|
            0 <= i < pairs@.len() && (#[trigger] pairs@[i].key) == c ==> r.0 <= i < r.1,
{
    let n = pairs.len();
    let lo = index[c as usize] as usize;
    if lo >= n {
        proof {
            assert forall|i: int|
                0 <= i < pairs@.len() && (#[trigger] pairs@[i].key) == c implies false by {
                assert(index@[c as int] <= i);
            }
        }
        return (n, n);
    }
    let mut hi = lo;
    while hi < n && pairs[hi].key == c
        invariant
            sorted_keys(pairs@),
            n == pairs@.len(),
            lo <= hi <= n,
            forall|i: int| lo <= i < hi ==> (#[trigger] pairs@[i].key) == c,
        decreases n - hi,
    {
        hi = hi + 1;
    }
    proof {
        assert forall|i: int|
            0 <= i < pairs@.len() && (#[trigger] pairs@[i].key) == c implies lo <= i < hi by {
            assert(index@[c as int] <= i);
            if i >= hi {
                assert(hi < n);
                assert(pairs@[hi as int].key <= pairs@[i].key);
                assert(pairs@[lo as int].key == c);
                assert(pairs@[lo as int].key <= pairs@[hi as int].key);
            }
        }
    }
    (lo, hi)
}

/// Squared distances are sums of squares, hence nonnegative; the distance
/// of a position to itself is zero.
pub proof fn lemma_dist2_nonneg(p: Pos, q: Pos)
    ensures
        dist2_spec(p, q) >= 0,
        dist2_spec(p, p) == 0,
{
    assert((p.x - q.x) * (p.x - q.x) + (p.y - q.y) * (p.y - q.y) + (p.z - q.z) * (p.z - q.z) >= 0)
        by (nonlinear_arith);
}

/// A position's flattened cell id lies inside the grid.
pub proof fn lemma_cell_key_bounds(p: Pos, h: i64, d: GridDims)
    requires
        h > 0,
        pos_bounded(p),
        dims_wf(d),
    ensures
        0 <= cell_key_spec(p, h, d) < cell_count_spec(d),
        in_grid(cell_triple(p, h, d), d),
{
    vstd::arithmetic::div_mod::lemma_div_pos_is_pos(p.x as int, h as int);
    vstd::arithmetic::div_mod::lemma_div_pos_is_pos(p.y as int, h as int);
    vstd::arithmetic::div_mod::lemma_div_pos_is_pos(p.z as int, h as int);
    lemma_flatten_bounds(
        axis_cell(p.x, h, d.x),
        axis_cell(p.y, h, d.y),
        axis_cell(p.z, h, d.z),
        d,
    );
}

/// Membership in a sequence extended by one element.
pub proof fn lemma_push_contains<T>(s: Seq<T>, x: T, y: T)
    ensures
        s.push(x).contains(y) <==> (s.contains(y) || y == x),
{
    if s.push(x).contains(y) {
        let i = choose|i: int| 0 <= i < s.push(x).len() && s.push(x)[i] == y;
        if i < s.len() {
            assert(s[i] == y);
        }
    }
    if s.contains(y) {
        let i = choose|i: int| 0 <= i < s.len() && s[i] == y;
        assert(s.push(x)[i] == y);
    }
    if y == x {
        assert(s.push(x)[s.len() as int] == y);
    }
}

/// Pushing an element not yet present keeps a sequence duplicate-free.
pub proof fn lemma_push_no_duplicates<T>(s: Seq<T>, x: T)
    requires
        s.no_duplicates(),
        !s.contains(x),
    ensures
        s.push(x).no_duplicates(),
{
    let t = s.push(x);
    assert forall|i: int, j: int|
        0 <= i < t.len() && 0 <= j < t.len() && i != j implies t[i] != t[j] by {
        if i < s.len() && j < s.len() {
            assert(t[i] == s[i] && t[j] == s[j]);
        } else if i < s.len() {
            assert(t[i] == s[i] && t[j] == x);
        } else {
            assert(t[i] == x && t[j] == s[j]);
        }
    }
}

/// The lookup table matches the positions: sorted records that are a
/// permutation of the fill pass's output, plus a correct start index.
pub open spec fn lookup_table_wf(
    ps: Seq<Pos>,
    h: i64,
    d: GridDims,
    pairs: Seq<KeyVal>,
    index: Seq<u32>,
) -> bool {
    &&& sorted_keys(pairs)
    &&& pairs.to_multiset() == lookup_pairs_spec(ps, h, d).to_multiset()
    &&& index_wf(pairs, index, cell_count_spec(d))
}

/// A sorted permutation of the fill output assigns every particle exactly
/// one record, keyed by that particle's cell.
pub proof fn lemma_table_entries(ps: Seq<Pos>, h: i64, d: GridDims, pairs: Seq<KeyVal>)
    requires
        h > 0,
        dims_wf(d),
        ps.len() <= u32::MAX,
        forall|j: int| 0 <= j < ps.len() ==> pos_bounded(#[trigger] ps[j]),
        pairs.to_multiset() == lookup_pairs_spec(ps, h, d).to_multiset(),
    ensures
        pairs.len() == ps.len(),
        forall|i: int|
            0 <= i < pairs.len() ==> (#[trigger] pairs[i]).val < ps.len() && pairs[i].key as int
                == cell_key_spec(ps[pairs[i].val as int], h, d),
        forall|j: int|
            0 <= j < ps.len() ==> pairs.contains(
                KeyVal { key: cell_key_spec(#[trigger] ps[j], h, d) as u32, val: j as u32 },
            ),
        forall|i1: int, i2: int|
            0 <= i1 < pairs.len() && 0 <= i2 < pairs.len() && (#[trigger] pairs[i1]).val == (
            #[trigger] pairs[i2]).val ==> i1 == i2,
{
    broadcast use vstd::seq_lib::group_to_multiset_ensures;

    let sp = lookup_pairs_spec(ps, h, d);
    assert(pairs.to_multiset().len() == sp.to_multiset().len());
    assert(sp.no_duplicates()) by {
        assert forall|j1: int, j2: int|
            0 <= j1 < sp.len() && 0 <= j2 < sp.len() && j1 != j2 implies sp[j1] != sp[j2] by {
            assert(sp[j1].val == j1 as u32 && sp[j2].val == j2 as u32);
        }
    }
    sp.lemma_multiset_has_no_duplicates();
    pairs.lemma_multiset_has_no_duplicates_conv();
    assert forall|i: int|
        0 <= i < pairs.len() implies (#[trigger] pairs[i]).val < ps.len() && pairs[i].key as int
        == cell_key_spec(ps[pairs[i].val as int], h, d) by {
        assert(pairs.contains(pairs[i]));
        assert(pairs.to_multiset().count(pairs[i]) > 0);
        assert(sp.to_multiset().count(pairs[i]) > 0);
        assert(sp.contains(pairs[i]));
        let j = choose|j: int| 0 <= j < sp.len() && sp[j] == pairs[i];
        assert(sp[j].val == j as u32);
        lemma_cell_key_bounds(ps[j], h, d);
    }
    assert forall|j: int|
        0 <= j < ps.len() implies pairs.contains(
        KeyVal { key: cell_key_spec(#[trigger] ps[j], h, d) as u32, val: j as u32 },
    ) by {
        lemma_cell_key_bounds(ps[j], h, d);
        assert(sp[j] == KeyVal { key: cell_key_spec(ps[j], h, d) as u32, val: j as u32 });
        assert(sp.contains(sp[j]));
        assert(sp.to_multiset().count(sp[j]) > 0);
        assert(pairs.to_multiset().count(sp[j]) > 0);
    }
    assert forall|i1: int, i2: int|
        0 <= i1 < pairs.len() && 0 <= i2 < pairs.len() && (#[trigger] pairs[i1]).val == (
    #[trigger] pairs[i2]).val implies i1 == i2 by {
        assert(pairs[i1].key as int == cell_key_spec(ps[pairs[i1].val as int], h, d));
        assert(pairs[i2].key as int == cell_key_spec(ps[pairs[i2].val as int], h, d));
        assert(pairs[i1] == pairs[i2]);
    }
}

/// Whether a cell-coordinate triple lies inside the grid.
pub open spec fn in_grid(t: (int, int, int), d: GridDims) -> bool {
    0 <= t.0 < d.x && 0 <= t.1 < d.y && 0 <= t.2 < d.z
}

/// Whether a triple lies in the 3x3x3 block centered on `(cx, cy, cz)`.
pub open spec fn in_block(t: (int, int, int), cx: int, cy: int, cz: int) -> bool {
    cx - 1 <= t.0 <= cx + 1 && cy - 1 <= t.1 <= cy + 1 && cz - 1 <= t.2 <= cz + 1
}

/// Scan order of a triple within the 3x3x3 block: 0 to 26.
pub open spec fn block_idx(t: (int, int, int), cx: int, cy: int, cz: int) -> int {
    (t.0 - (cx - 1)) * 9 + (t.1 - (cy - 1)) * 3 + (t.2 - (cz - 1))
}

/// The in-grid cells of the block already scanned before step `o`.
pub open spec fn block_cells(cx: int, cy: int, cz: int, d: GridDims, o: int) -> Set<
    (int, int, int),
> {
    Set::new(
        |t: (int, int, int)|
            in_grid(t, d) && in_block(t, cx, cy, cz) && block_idx(t, cx, cy, cz) < o,
    )
}

/// Row-major flattening of in-grid cell coordinates.
fn flatten_cells(a: u32, b: u32, c: u32, d: GridDims) -> (k: u32)
    requires
        dims_wf(d),
        a < d.x,
        b < d.y,
        c < d.z,
    ensures
        k as int == flatten_spec(a as int, b as int, c as int, d),
        k < cell_count_spec(d),
{
    proof {
        lemma_flatten_bounds(a as int, b as int, c as int, d);
        assert(d.y * d.z <= d.x * d.y * d.z && a * (d.y * d.z) <= a * (d.y * d.z) + b * d.z + c)
            by (nonlinear_arith)
            requires
                1 <= d.x,
                0 <= d.y,
                0 <= d.z,
                0 <= a,
                0 <= b,
                0 <= c,
        ;
    }
    let k64: u64 = (a as u64) * ((d.y as u64) * (d.z as u64)) + (b as u64) * (d.z as u64)
        + (c as u64);
    k64 as u32
}

/// Squared distance between two bounded positions.
pub fn dist2(p: Pos, q: Pos) -> (r: i128)
    requires
        pos_bounded(p),
        pos_bounded(q),
    ensures
        r as int == dist2_spec(p, q),
        r >= 0,
{
    let dx = p.x as i128 - q.x as i128;
    let dy = p.y as i128 - q.y as i128;
    let dz = p.z as i128 - q.z as i128;
    proof {
        assert(dx * dx <= 0x1_0000_0000_0000_0000_0000_0000 && dx * dx >= 0 && dy * dy
            <= 0x1_0000_0000_0000_0000_0000_0000 && dy * dy >= 0 && dz * dz
            <= 0x1_0000_0000_0000_0000_0000_0000 && dz * dz >= 0) by (nonlinear_arith)
            requires
                -0x4000_0000_0000 <= dx <= 0x4000_0000_0000,
                -0x4000_0000_0000 <= dy <= 0x4000_0000_0000,
                -0x4000_0000_0000 <= dz <= 0x4000_0000_0000,
        ;
    }
    dx * dx + dy * dy + dz * dz
}

/// Grid-accelerated neighbor query: all particle indices whose position
/// lies within the smoothing radius `h` of particle `i`'s position,
/// particle `i` itself included, each exactly once.
#[verifier::rlimit(50)]
pub fn neighbors_within(
    positions: &Vec<Pos>,
    pairs: &Vec<KeyVal>,
    index: &Vec<u32>,
    h: i64,
    d: GridDims,
    i: usize,
) -> (out: Vec<u32>)
    requires
        radius_ok(h),
        dims_wf(d),
        positions@.len() <= u32::MAX,
        forall|j: int| 0 <= j < positions@.len() ==> pos_bounded(#[trigger] positions@[j]),
        lookup_table_wf(positions@, h, d, pairs@, index@),
        i < positions@.len(),
    ensures
        forall|v: u32|
            out@.contains(v) <==> (v as int) < positions@.len() && dist2_spec(
                positions@[i as int],
                positions@[v as int],
            ) <= (h as int) * (h as int),
        out@.no_duplicates(),
{
    let ghost ps = positions@;
    let n = positions.len();
    proof {
        lemma_table_entries(ps, h, d, pairs@);
    }
    let hh = radius_sq(h);
    let p = positions[i];
    let cx = axis_cell_exec(p.x, h, d.x);
    let cy = axis_cell_exec(p.y, h, d.y);
    let cz = axis_cell_exec(p.z, h, d.z);
    let mut out: Vec<u32> = Vec::new();
    let mut o: usize = 0;
    while o < 27
        invariant
            radius_ok(h),
            hh as int == (h as int) * (h as int),
            dims_wf(d),
            n == ps.len() <= u32::MAX,
            positions@ == ps,
            forall|j: int| 0 <= j < ps.len() ==> pos_bounded(#[trigger] ps[j]),
            lookup_table_wf(ps, h, d, pairs@, index@),
            i < ps.len(),
            p == ps[i as int],
            cx as int == axis_cell(p.x, h, d.x) && cx < d.x,
            cy as int == axis_cell(p.y, h, d.y) && cy < d.y,
            cz as int == axis_cell(p.z, h, d.z) && cz < d.z,
            o <= 27,
            out@.no_duplicates(),
            forall|v: u32|
                out@.contains(v) <==> (v as int) < ps.len() && dist2_spec(p, ps[v as int]) <= (
                h as int) * (h as int) && block_cells(cx as int, cy as int, cz as int, d, o as int)
                    .contains(cell_triple(ps[v as int], h, d)),
        decreases 27 - o,
    {
        proof {
            lemma_table_entries(ps, h, d, pairs@);
        }
        let ox = o / 9;
        let oy = (o / 3) % 3;
        let oz = o % 3;
        let ax_i: i64 = cx as i64 + ox as i64 - 1;
        let ay_i: i64 = cy as i64 + oy as i64 - 1;
        let az_i: i64 = cz as i64 + oz as i64 - 1;
        let ghost t_o = (ax_i as int, ay_i as int, az_i as int);
        proof {
            vstd::arithmetic::div_mod::lemma_breakdown(o as int, 3, 3);
            vstd::arithmetic::div_mod::lemma_fundamental_div_mod(o as int, 9);
            assert(block_idx(t_o, cx as int, cy as int, cz as int) == o);
        }
        if 0 <= ax_i && ax_i < d.x as i64 && 0 <= ay_i && ay_i < d.y as i64 && 0 <= az_i
            && az_i < d.z as i64 {
            let k = flatten_cells(ax_i as u32, ay_i as u32, az_i as u32, d);
            let (lo, hi) = cell_range(pairs, index, k);
            let mut t = lo;
            while t < hi
                invariant
                    radius_ok(h),
                    hh as int == (h as int) * (h as int),
                    dims_wf(d),
                    n == ps.len() <= u32::MAX,
                    positions@ == ps,
                    forall|j: int| 0 <= j < ps.len() ==> pos_bounded(#[trigger] ps[j]),
                    lookup_table_wf(ps, h, d, pairs@, index@),
                    i < ps.len(),
                    p == ps[i as int],
                    o < 27,
                    in_grid(t_o, d),
                    in_block(t_o, cx as int, cy as int, cz as int),
                    block_idx(t_o, cx as int, cy as int, cz as int) == o,
                    k as int == flatten_spec(t_o.0, t_o.1, t_o.2, d),
                    lo <= t <= hi <= pairs@.len(),
                    pairs@.len() == ps.len(),
                    forall|s: int| lo <= s < hi ==> (#[trigger] pairs@[s].key) == k,
                    forall|s: int|
                        0 <= s < pairs@.len() && (#[trigger] pairs@[s].key) == k ==> lo <= s < hi,
                    forall|s: int|
                        0 <= s < pairs@.len() ==> (#[trigger] pairs@[s]).val < ps.len()
                            && pairs@[s].key as int == cell_key_spec(
                            ps[pairs@[s].val as int],
                            h,
                            d,
                        ),
                    forall|j: int|
                        0 <= j < ps.len() ==> pairs@.contains(
                            KeyVal {
                                key: cell_key_spec(#[trigger] ps[j], h, d) as u32,
                                val: j as u32,
                            },
                        ),
                    forall|s1: int, s2: int|
                        0 <= s1 < pairs@.len() && 0 <= s2 < pairs@.len() && (
                        #[trigger] pairs@[s1]).val == (#[trigger] pairs@[s2]).val ==> s1 == s2,
                    out@.no_duplicates(),
                    forall|v: u32|
                        out@.contains(v) <==> (v as int) < ps.len() && dist2_spec(p, ps[v as int])
                            <= (h as int) * (h as int) && (block_cells(
                            cx as int,
                            cy as int,
                            cz as int,
                            d,
                            o as int,
                        ).contains(cell_triple(ps[v as int], h, d)) || exists|s: int|
                            lo <= s < t && (#[trigger] pairs@[s]).val == v),
                decreases hi - t,
            {
                let v = pairs[t].val;
                proof {
                    assert(pairs@[t as int].key == k);
                    assert(cell_key_spec(ps[v as int], h, d) == k as int);
                }
                let ghost out0 = out@;
                if dist2(p, positions[v as usize]) <= hh {
                    proof {
                        let tv = cell_triple(ps[v as int], h, d);
                        assert(flatten_spec(tv.0, tv.1, tv.2, d) == k as int);
                        lemma_cell_key_bounds(ps[v as int], h, d);
                        lemma_flatten_injective(tv.0, tv.1, tv.2, t_o.0, t_o.1, t_o.2, d);
                        assert(tv == t_o);
                        // `v` is not in `out` yet: its cell is the one being
                        // scanned, which is not among the finished cells, and
                        // records are unique per particle.
                        if out0.contains(v) {
                            if block_cells(cx as int, cy as int, cz as int, d, o as int).contains(
                                tv,
                            ) {
                                assert(block_idx(tv, cx as int, cy as int, cz as int) < o);
                            } else {
                                let s = choose|s: int|
                                    lo <= s < t && (#[trigger] pairs@[s]).val == v;
                                assert(s == t as int);
                            }
                            assert(false);
                        }
                    }
                    out.push(v);
                    proof {
                        lemma_push_no_duplicates(out0, v);
                        assert forall|w: u32|
                            out@.contains(w) <==> ((w as int) < ps.len() && dist2_spec(
                                p,
                                ps[w as int],
                            ) <= (h as int) * (h as int) && (block_cells(
                                cx as int,
                                cy as int,
                                cz as int,
                                d,
                                o as int,
                            ).contains(cell_triple(ps[w as int], h, d)) || exists|s: int|
                                lo <= s < t + 1 && (#[trigger] pairs@[s]).val == w)) by {
                            lemma_push_contains(out0, v, w);
                            if w == v {
                                assert(lo <= t < t + 1 && pairs@[t as int].val == v);
                            } else {
                                if exists|s: int|
                                    lo <= s < t + 1 && (#[trigger] pairs@[s]).val == w {
                                    let s = choose|s: int|
                                        lo <= s < t + 1 && (#[trigger] pairs@[s]).val == w;
                                    assert(s != t as int);
                                    assert(lo <= s < t);
                                }
                            }
                        }
                    }
                } else {
                    proof {
                        assert forall|w: u32|
                            out@.contains(w) <==> ((w as int) < ps.len() && dist2_spec(
                                p,
                                ps[w as int],
                            ) <= (h as int) * (h as int) && (block_cells(
                                cx as int,
                                cy as int,
                                cz as int,
                                d,
                                o as int,
                            ).contains(cell_triple(ps[w as int], h, d)) || exists|s: int|
                                lo <= s < t + 1 && (#[trigger] pairs@[s]).val == w)) by {
                            if (w as int) < ps.len() && dist2_spec(p, ps[w as int]) <= (h as int)
                                * (h as int) && (exists|s: int|
                                lo <= s < t + 1 && (#[trigger] pairs@[s]).val == w) {
                                let s = choose|s: int|
                                    lo <= s < t + 1 && (#[trigger] pairs@[s]).val == w;
                                if s == t as int {
                                    assert(w == v);
                                    assert(false);
                                }
                                assert(lo <= s < t);
                            }
                        }
                    }
                }
                t = t + 1;
            }
            proof {
                assert(block_cells(cx as int, cy as int, cz as int, d, o + 1) =~= block_cells(
                    cx as int,
                    cy as int,
                    cz as int,
                    d,
                    o as int,
                ).insert(t_o)) by {
                    assert forall|u: (int, int, int)|
                        block_cells(cx as int, cy as int, cz as int, d, o + 1).contains(u)
                            <==> block_cells(cx as int, cy as int, cz as int, d, o as int).insert(
                        t_o).contains(u) by {
                        if in_grid(u, d) && in_block(u, cx as int, cy as int, cz as int) {
                            if block_idx(u, cx as int, cy as int, cz as int) == o {
                                assert(u == t_o);
                            }
                        }
                    }
                }
                assert forall|v: u32|
                    out@.contains(v) <==> (v as int) < ps.len() && dist2_spec(p, ps[v as int]) <= (
                h as int) * (h as int) && block_cells(cx as int, cy as int, cz as int, d, o + 1)
                    .contains(cell_triple(ps[v as int], h, d)) by {
                    let tv = cell_triple(ps[v as int], h, d);
                    if (v as int) < ps.len() && dist2_spec(p, ps[v as int]) <= (h as int) * (
                    h as int) && tv == t_o {
                        // the particle's unique record lies in the scanned run
                        assert(pairs@.contains(
                            KeyVal { key: cell_key_spec(ps[v as int], h, d) as u32, val: v },
                        ));
                        let s = choose|s: int|
                            0 <= s < pairs@.len() && pairs@[s] == KeyVal {
                                key: cell_key_spec(ps[v as int], h, d) as u32,
                                val: v,
                            };
                        assert(pairs@[s].key == k);
                        assert(lo <= s < hi);
                    }
                    if out@.contains(v) && !block_cells(
                        cx as int,
                        cy as int,
                        cz as int,
                        d,
                        o as int,
                    ).contains(tv) {
                        let s = choose|s: int| lo <= s < hi && (#[trigger] pairs@[s]).val == v;
                        assert(pairs@[s].key == k);
                        assert(cell_key_spec(ps[v as int], h, d) == k as int);
                        assert(in_grid(tv, d)) by {
                            vstd::arithmetic::div_mod::lemma_div_pos_is_pos(
                                ps[v as int].x as int,
                                h as int,
                            );
                            vstd::arithmetic::div_mod::lemma_div_pos_is_pos(
                                ps[v as int].y as int,
                                h as int,
                            );
                            vstd::arithmetic::div_mod::lemma_div_pos_is_pos(
                                ps[v as int].z as int,
                                h as int,
                            );
                        }
                        lemma_flatten_injective(tv.0, tv.1, tv.2, t_o.0, t_o.1, t_o.2, d);
                    }
                }
            }
        } else {
            proof {
                assert(block_cells(cx as int, cy as int, cz as int, d, o + 1) =~= block_cells(
                    cx as int,
                    cy as int,
                    cz as int,
                    d,
                    o as int,
                )) by {
                    assert forall|u: (int, int, int)|
                        block_cells(cx as int, cy as int, cz as int, d, o + 1).contains(u)
                            <==> block_cells(cx as int, cy as int, cz as int, d, o as int).contains(
                        u) by {
                        if in_grid(u, d) && in_block(u, cx as int, cy as int, cz as int) {
                            if block_idx(u, cx as int, cy as int, cz as int) == o {
                                assert(u == t_o);
                                assert(false);
                            }
                        }
                    }
                }
            }
        }
        o = o + 1;
    }
    proof {
        let h2 = (h as int) * (h as int);
        assert forall|v: u32|
            (v as int) < ps.len() && dist2_spec(p, ps[v as int]) <= h2 implies block_cells(
            cx as int,
            cy as int,
            cz as int,
            d,
            27,
        ).contains(cell_triple(ps[v as int], h, d)) by {
            let q = ps[v as int];
            assert(-(h as int) <= p.x - q.x <= h as int && -(h as int) <= p.y - q.y <= h as int
                && -(h as int) <= p.z - q.z <= h as int) by (nonlinear_arith)
                requires
                    (p.x - q.x) * (p.x - q.x) + (p.y - q.y) * (p.y - q.y) + (p.z - q.z) * (p.z
                        - q.z) <= h2,
                    h2 == (h as int) * (h as int),
                    h > 0,
            ;
            lemma_axis_cell_close(q.x, p.x, h, d.x);
            lemma_axis_cell_close(q.y, p.y, h, d.y);
            lemma_axis_cell_close(q.z, p.z, h, d.z);
            vstd::arithmetic::div_mod::lemma_div_pos_is_pos(q.x as int, h as int);
            vstd::arithmetic::div_mod::lemma_div_pos_is_pos(q.y as int, h as int);
            vstd::arithmetic::div_mod::lemma_div_pos_is_pos(q.z as int, h as int);
        }
    }
    out
}

/// The per-frame spatial index: the sorted (cell id, particle index)
/// records and the per-cell start-offset table, rebuilt from the current
/// positions every unpaused frame.
pub struct SpatialLookup {
    pub pairs: Vec<KeyVal>,
    pub index: Vec<u32>,
}

impl SpatialLookup {
    /// Build the index over the given positions: fill one record per
    /// particle, radix sort the records by cell id, and mark each cell's
    /// start offset.
    pub fn new(positions: &Vec<Pos>, h: i64, d: GridDims) -> (r: SpatialLookup)
        requires
            h > 0,
            dims_wf(d),
            positions@.len() <= u32::MAX,
            forall|j: int| 0 <= j < positions@.len() ==> pos_bounded(#[trigger] positions@[j]),
        ensures
            lookup_table_wf(positions@, h, d, r.pairs@, r.index@),
    {
        let mut pairs = fill_spatial_lookup(positions, h, d);
        crate::radix_sort::sort_pairs(&mut pairs);
        proof {
            lemma_table_entries(positions@, h, d, pairs@);
            assert forall|i: int| 0 <= i < pairs@.len() implies ((#[trigger] pairs@[i]).key as int)
                < cell_count_spec(d) by {
                lemma_cell_key_bounds(positions@[pairs@[i].val as int], h, d);
            }
            assert((d.x as int) * (d.y as int) <= (d.x as int) * (d.y as int) * (d.z as int))
                by (nonlinear_arith)
                requires
                    1 <= d.x && 1 <= d.y && 1 <= d.z,
            ;
        }
        let cell_total = ((d.x as u64) * (d.y as u64) * (d.z as u64)) as usize;
        let index = build_cell_index(&pairs, cell_total);
        SpatialLookup { pairs, index }
    }

    /// Rebuild the index over moved positions.
    pub fn update(&mut self, positions: &Vec<Pos>, h: i64, d: GridDims)
        requires
            h > 0,
            dims_wf(d),
            positions@.len() <= u32::MAX,
            forall|j: int| 0 <= j < positions@.len() ==> pos_bounded(#[trigger] positions@[j]),
        ensures
            lookup_table_wf(positions@, h, d, final(self).pairs@, final(self).index@),
    {
        *self = SpatialLookup::new(positions, h, d);
    }
}

/// Reference neighbor search: scan every particle and keep those within
/// the smoothing radius of particle `i`'s position, particle `i` included.
pub fn brute_force_neighbors(positions: &Vec<Pos>, h: i64, i: usize) -> (out: Vec<u32>)
    requires
        radius_ok(h),
        positions@.len() <= u32::MAX,
        forall|j: int| 0 <= j < positions@.len() ==> pos_bounded(#[trigger] positions@[j]),
        i < positions@.len(),
    ensures
        forall|v: u32|
            out@.contains(v) <==> (v as int) < positions@.len() && dist2_spec(
                positions@[i as int],
                positions@[v as int],
            ) <= (h as int) * (h as int),
        out@.no_duplicates(),
{
    let n = positions.len();
    let hh = radius_sq(h);
    let p = positions[i];
    let mut out: Vec<u32> = Vec::new();
    let mut j: usize = 0;
    while j < n
        invariant
            radius_ok(h),
            hh as int == (h as int) * (h as int),
            n == positions@.len() <= u32::MAX,
            i < n,
            p == positions@[i as int],
            forall|jj: int| 0 <= jj < positions@.len() ==> pos_bounded(#[trigger] positions@[jj]),
            j <= n,
            out@.no_duplicates(),
            forall|v: u32|
                out@.contains(v) <==> (v as int) < j && dist2_spec(p, positions@[v as int]) <= (
                h as int) * (h as int),
        decreases n - j,
    {
        let ghost out0 = out@;
        if dist2(p, positions[j]) <= hh {
            proof {
                if out0.contains(j as u32) {
                    assert(((j as u32) as int) < j);
                    assert(false);
                }
            }
            out.push(j as u32);
            proof {
                lemma_push_no_duplicates(out0, j as u32);
                assert forall|v: u32|
                    out@.contains(v) <==> ((v as int) < j + 1 && dist2_spec(
                        p,
                        positions@[v as int],
                    ) <= (h as int) * (h as int)) by {
                    lemma_push_contains(out0, j as u32, v);
                }
            }
        }
        j = j + 1;
    }
    out
}

/// Law: two duplicate-free index lists with the same membership, such as
/// the grid-accelerated and the brute-force neighbor lists of one particle,
/// hold exactly the same indices.
pub proof fn lemma_neighbor_lists_agree(a: Seq<u32>, b: Seq<u32>)
    requires
        a.no_duplicates(),
        b.no_duplicates(),
        forall|v: u32| a.contains(v) <==> b.contains(v),
    ensures
        a.to_multiset() == b.to_multiset(),
{
    broadcast use vstd::seq_lib::group_to_multiset_ensures;

    a.lemma_multiset_has_no_duplicates();
    b.lemma_multiset_has_no_duplicates();
    assert forall|x: u32| a.to_multiset().count(x) == b.to_multiset().count(x) by {
        if a.contains(x) {
            assert(a.to_multiset().count(x) == 1 && b.to_multiset().count(x) == 1);
        } else {
            assert(!b.contains(x));
            assert(a.to_multiset().count(x) == 0 && b.to_multiset().count(x) == 0);
        }
    }
    assert(a.to_multiset() =~= b.to_multiset());
}

} // verus!
