//! Voxel maps: block identifiers at integer grid positions.
//!
//! A [`VoxelMap`] keeps its entries in ascending order of position (by x, then
//! y, then z). Each position occurs at most once, and walking the map always
//! visits the entries in that order, so everything derived from a walk is a
//! function of the mapping alone.

use vstd::prelude::*;

use crate::error::ExportError;

verus! {

/// A grid position.
pub struct Pos {
    pub x: int,
    pub y: int,
    pub z: int,
}

/// One entry of a voxel map: a position and the identifier of the block there.
pub struct Cell {
    pub pos: Pos,
    pub block: Seq<char>,
}

/// The position with the given coordinates.
pub open spec fn pos(x: int, y: int, z: int) -> Pos {
    Pos { x, y, z }
}

/// The order of positions: by x, then by y, then by z.
pub open spec fn pos_lt(a: Pos, b: Pos) -> bool {
    a.x < b.x || (a.x == b.x && (a.y < b.y || (a.y == b.y && a.z < b.z)))
}

/// Each entry lies strictly before every later one.
pub open spec fn strictly_ascending(cells: Seq<Cell>) -> bool {
    forall|i: int, j: int|
        #![trigger cells[i], cells[j]]
        0 <= i < j < cells.len() ==> pos_lt(cells[i].pos, cells[j].pos)
}

/// Every coordinate is a 32-bit signed integer.
pub open spec fn within_i32(cells: Seq<Cell>) -> bool {
    forall|i: int|
        #![trigger cells[i]]
        0 <= i < cells.len() ==> {
            &&& i32::MIN <= cells[i].pos.x <= i32::MAX
            &&& i32::MIN <= cells[i].pos.y <= i32::MAX
            &&& i32::MIN <= cells[i].pos.z <= i32::MAX
        }
}

/// What holds of the entries of every voxel map.
pub open spec fn well_formed(cells: Seq<Cell>) -> bool {
    strictly_ascending(cells) && within_i32(cells)
}

/// The number of entries that lie strictly before `p`.
pub open spec fn rank(cells: Seq<Cell>, p: Pos) -> int
    decreases cells.len(),
{
    if cells.len() == 0 {
        0
    } else {
        rank(cells.drop_last(), p) + if pos_lt(cells.last().pos, p) {
            1int
        } else {
            0int
        }
    }
}

/// The entries after `c` has been stored: `c` takes the place of the entry at
/// its position if there is one, and is otherwise placed in order.
pub open spec fn put(cells: Seq<Cell>, c: Cell) -> Seq<Cell> {
    let k = rank(cells, c.pos);
    if k < cells.len() && cells[k].pos == c.pos {
        cells.update(k, c)
    } else {
        cells.insert(k, c)
    }
}

/// Some entry lies at `p`.
pub open spec fn occupied(cells: Seq<Cell>, p: Pos) -> bool {
    exists|i: int| 0 <= i < cells.len() && (#[trigger] cells[i]).pos == p
}

/// The block at `p`, if the position is occupied.
pub open spec fn block_at(cells: Seq<Cell>, p: Pos) -> Option<Seq<char>> {
    if occupied(cells, p) {
        let i = choose|i: int| 0 <= i < cells.len() && (#[trigger] cells[i]).pos == p;
        Some(cells[i].block)
    } else {
        None
    }
}

/// The x coordinates of the entries, in order.
pub open spec fn xs(cells: Seq<Cell>) -> Seq<int> {
    cells.map_values(|c: Cell| c.pos.x)
}

/// The y coordinates of the entries, in order.
pub open spec fn ys(cells: Seq<Cell>) -> Seq<int> {
    cells.map_values(|c: Cell| c.pos.y)
}

/// The z coordinates of the entries, in order.
pub open spec fn zs(cells: Seq<Cell>) -> Seq<int> {
    cells.map_values(|c: Cell| c.pos.z)
}

/// The corner of the bounding box with the smallest coordinates.
pub open spec fn origin(cells: Seq<Cell>) -> Pos {
    pos(xs(cells).min(), ys(cells).min(), zs(cells).min())
}

/// Extent of the bounding box along x.
pub open spec fn width(cells: Seq<Cell>) -> int {
    xs(cells).max() - xs(cells).min() + 1
}

/// Extent of the bounding box along y.
pub open spec fn height(cells: Seq<Cell>) -> int {
    ys(cells).max() - ys(cells).min() + 1
}

/// Extent of the bounding box along z.
pub open spec fn length(cells: Seq<Cell>) -> int {
    zs(cells).max() - zs(cells).min() + 1
}

/// The number of grid positions inside the bounding box.
pub open spec fn volume(cells: Seq<Cell>) -> int {
    width(cells) * height(cells) * length(cells)
}

/// The extents of the bounding box and the number of positions in it are
/// 32-bit signed integers. An empty map has no box and fits.
pub open spec fn box_fits(cells: Seq<Cell>) -> bool {
    cells.len() > 0 ==> {
        &&& width(cells) <= i32::MAX
        &&& height(cells) <= i32::MAX
        &&& length(cells) <= i32::MAX
        &&& volume(cells) <= i32::MAX
    }
}

/// One occupied grid position and the identifier of the block there.
#[derive(Debug)]
pub struct Voxel {
    pub x: i32,
    pub y: i32,
    pub z: i32,
    pub block: String,
}

impl View for Voxel {
    type V = Cell;

    open spec fn view(&self) -> Cell {
        Cell { pos: pos(self.x as int, self.y as int, self.z as int), block: self.block@ }
    }
}

/// The smallest axis-aligned box around every position of a map. Both ends
/// of each range are inside.
#[derive(Clone, Copy, Debug, PartialEq, Eq, Structural)]
pub struct BoundingBox {
    pub min_x: i32,
    pub max_x: i32,
    pub min_y: i32,
    pub max_y: i32,
    pub min_z: i32,
    pub max_z: i32,
}

impl BoundingBox {
    /// The box spans exactly the given entries.
    pub open spec fn spans(&self, cells: Seq<Cell>) -> bool {
        &&& self.min_x == xs(cells).min()
        &&& self.max_x == xs(cells).max()
        &&& self.min_y == ys(cells).min()
        &&& self.max_y == ys(cells).max()
        &&& self.min_z == zs(cells).min()
        &&& self.max_z == zs(cells).max()
    }

    /// Extent along x.
    pub open spec fn width(&self) -> int {
        self.max_x - self.min_x + 1
    }

    /// Extent along y.
    pub open spec fn height(&self) -> int {
        self.max_y - self.min_y + 1
    }

    /// Extent along z.
    pub open spec fn length(&self) -> int {
        self.max_z - self.min_z + 1
    }

    /// No range is empty, and the extents and their product are 32-bit
    /// signed integers.
    pub open spec fn fits(&self) -> bool {
        &&& 1 <= self.width() <= i32::MAX
        &&& 1 <= self.height() <= i32::MAX
        &&& 1 <= self.length() <= i32::MAX
        &&& self.width() * self.height() * self.length() <= i32::MAX
    }

    /// Width, height and length of the box, where it fits.
    pub fn dimensions(&self) -> (dims: Option<(i32, i32, i32)>)
        ensures
            match dims {
                Some((w, h, l)) => self.fits() && w == self.width() && h == self.height() && l
                    == self.length(),
                None => !self.fits(),
            },
    {
        let w: i64 = self.max_x as i64 - self.min_x as i64 + 1;
        let h: i64 = self.max_y as i64 - self.min_y as i64 + 1;
        let l: i64 = self.max_z as i64 - self.min_z as i64 + 1;
        let top: i64 = i32::MAX as i64;
        if w < 1 || h < 1 || l < 1 || w > top || h > top || l > top {
            return None;
        }
        assert(1 <= w * h <= 0x4000_0000_0000_0000) by (nonlinear_arith)
            requires
                1 <= w <= 0x7fff_ffff,
                1 <= h <= 0x7fff_ffff,
        ;
        let wh: i64 = w * h;
        if wh > top {
            assert(w * h * l >= w * h) by (nonlinear_arith)
                requires
                    w * h >= 0,
                    l >= 1,
            ;
            return None;
        }
        assert(0 <= wh * l <= 0x4000_0000_0000_0000) by (nonlinear_arith)
            requires
                1 <= wh <= 0x7fff_ffff,
                1 <= l <= 0x7fff_ffff,
        ;
        let v: i64 = wh * l;
        if v > top {
            return None;
        }
        Some((w as i32, h as i32, l as i32))
    }
}

/// A mapping from grid positions to block identifiers.
#[derive(Debug)]
pub struct VoxelMap {
    entries: Vec<Voxel>,
}

impl View for VoxelMap {
    type V = Seq<Cell>;

    /// The entries in ascending order of position.
    closed spec fn view(&self) -> Seq<Cell> {
        self.entries@.map_values(|v: Voxel| v@)
    }
}

/// Where the entries before index `k` lie before `p` and the others do not,
/// `k` is the rank of `p`.
pub proof fn lemma_rank_is_boundary(cells: Seq<Cell>, p: Pos, k: int)
    requires
        0 <= k <= cells.len(),
        forall|i: int| 0 <= i < k ==> pos_lt((#[trigger] cells[i]).pos, p),
        forall|i: int| k <= i < cells.len() ==> !pos_lt((#[trigger] cells[i]).pos, p),
    ensures
        rank(cells, p) == k,
    decreases cells.len(),
{
    if cells.len() > 0 {
        let front = cells.drop_last();
        if k == cells.len() {
            assert(pos_lt(cells[k - 1].pos, p));
            lemma_rank_is_boundary(front, p, k - 1);
        } else {
            assert(!pos_lt(cells[cells.len() - 1].pos, p));
            lemma_rank_is_boundary(front, p, k);
        }
    }
}

/// In a map, the entry at index `i` is the block at its position.
pub proof fn lemma_block_at_entry(cells: Seq<Cell>, i: int)
    requires
        strictly_ascending(cells),
        0 <= i < cells.len(),
    ensures
        occupied(cells, cells[i].pos),
        block_at(cells, cells[i].pos) == Some(cells[i].block),
{
    let p = cells[i].pos;
    let j = choose|j: int| 0 <= j < cells.len() && (#[trigger] cells[j]).pos == p;
    if j < i {
        assert(pos_lt(cells[j].pos, cells[i].pos));
    } else if i < j {
        assert(pos_lt(cells[i].pos, cells[j].pos));
    }
}

fn pos_less(ax: i32, ay: i32, az: i32, bx: i32, by: i32, bz: i32) -> (less: bool)
    ensures
        less == pos_lt(pos(ax as int, ay as int, az as int), pos(bx as int, by as int, bz as int)),
{
    ax < bx || (ax == bx && (ay < by || (ay == by && az < bz)))
}

impl VoxelMap {
    /// The entries are in strictly ascending order of position.
    #[verifier::type_invariant]
    pub open spec fn wf(self) -> bool {
        well_formed(self@)
    }

    /// The map without entries.
    pub fn new() -> (map: Self)
        ensures
            map@ == Seq::<Cell>::empty(),
    {
        VoxelMap { entries: Vec::new() }
    }

    /// The number of entries.
    pub fn len(&self) -> (n: usize)
        ensures
            n == self@.len(),
    {
        self.entries.len()
    }

    /// Whether the map has no entries.
    pub fn is_empty(&self) -> (empty: bool)
        ensures
            empty == (self@.len() == 0),
    {
        self.entries.len() == 0
    }

    /// The entry at index `i` in ascending order of position.
    pub fn entry(&self, i: usize) -> (voxel: &Voxel)
        requires
            i < self@.len(),
        ensures
            voxel@ == self@[i as int],
    {
        &self.entries[i]
    }

    /// The index at which an entry at (x, y, z) stands or would be placed.
    pub fn position(&self, x: i32, y: i32, z: i32) -> (k: usize)
        ensures
            k == rank(self@, pos(x as int, y as int, z as int)),
            k <= self@.len(),
            forall|i: int| 0 <= i < k ==> pos_lt((#[trigger] self@[i]).pos, pos(x as int, y as int, z as int)),
            forall|i: int|
                k <= i < self@.len() ==> !pos_lt(
                    (#[trigger] self@[i]).pos,
                    pos(x as int, y as int, z as int),
                ),
    {
        proof {
            use_type_invariant(self);
        }
        let ghost p = pos(x as int, y as int, z as int);
        let mut lo: usize = 0;
        let mut hi: usize = self.entries.len();
        while lo < hi
            invariant
                lo <= hi <= self.entries.len(),
                self.entries.len() == self@.len(),
                strictly_ascending(self@),
                p == pos(x as int, y as int, z as int),
                forall|i: int| 0 <= i < lo ==> pos_lt((#[trigger] self@[i]).pos, p),
                forall|i: int| hi <= i < self@.len() ==> !pos_lt((#[trigger] self@[i]).pos, p),
            decreases hi - lo,
        {
            let mid = lo + (hi - lo) / 2;
            let e = &self.entries[mid];
            assert(e@ == self@[mid as int]);
            if pos_less(e.x, e.y, e.z, x, y, z) {
                assert forall|i: int| 0 <= i < mid + 1 implies pos_lt(
                    (#[trigger] self@[i]).pos,
                    p,
                ) by {
                    if i < mid {
                        assert(pos_lt(self@[i].pos, self@[mid as int].pos));
                    }
                }
                lo = mid + 1;
            } else {
                assert forall|i: int| mid <= i < self@.len() implies !pos_lt(
                    (#[trigger] self@[i]).pos,
                    p,
                ) by {
                    if mid < i {
                        assert(pos_lt(self@[mid as int].pos, self@[i].pos));
                    }
                }
                hi = mid;
            }
        }
        proof {
            lemma_rank_is_boundary(self@, p, lo as int);
        }
        lo
    }

    /// The block at (x, y, z), if the position is occupied.
    pub fn get(&self, x: i32, y: i32, z: i32) -> (found: Option<&String>)
        ensures
            match found {
                Some(block) => block_at(self@, pos(x as int, y as int, z as int)) == Some(block@),
                None => block_at(self@, pos(x as int, y as int, z as int)) is None,
            },
    {
        proof {
            use_type_invariant(self);
        }
        let ghost p = pos(x as int, y as int, z as int);
        let k = self.position(x, y, z);
        if k < self.entries.len() {
            let e = &self.entries[k];
            assert(e@ == self@[k as int]);
            if e.x == x && e.y == y && e.z == z {
                proof {
                    lemma_block_at_entry(self@, k as int);
                }
                return Some(&e.block);
            }
        }
        proof {
            if occupied(self@, p) {
                let i = choose|i: int| 0 <= i < self@.len() && (#[trigger] self@[i]).pos == p;
                if i < k {
                    assert(pos_lt(self@[i].pos, p));
                } else if i > k {
                    assert(pos_lt(self@[k as int].pos, self@[i].pos));
                    assert(!pos_lt(self@[k as int].pos, p));
                }
            }
        }
        None
    }

    /// The smallest box around every position, or `EmptyInput` where the map
    /// has no entries.
    pub fn bounding_box(&self) -> (bounds: Result<BoundingBox, ExportError>)
        ensures
            match bounds {
                Ok(b) => self@.len() > 0 && b.spans(self@),
                Err(e) => self@.len() == 0 && e == ExportError::EmptyInput,
            },
    {
        let n = self.entries.len();
        if n == 0 {
            return Err(ExportError::EmptyInput);
        }
        let first = &self.entries[0];
        assert(first@ == self@[0]);
        let mut min_x = first.x;
        let mut max_x = first.x;
        let mut min_y = first.y;
        let mut max_y = first.y;
        let mut min_z = first.z;
        let mut max_z = first.z;
        let ghost mut at_min_x = 0int;
        let ghost mut at_max_x = 0int;
        let ghost mut at_min_y = 0int;
        let ghost mut at_max_y = 0int;
        let ghost mut at_min_z = 0int;
        let ghost mut at_max_z = 0int;
        let mut i: usize = 1;
        while i < n
            invariant
                1 <= i <= n,
                n == self.entries.len(),
                n == self@.len(),
                forall|j: int|
                    0 <= j < i ==> {
                        &&& min_x <= (#[trigger] self@[j]).pos.x <= max_x
                        &&& min_y <= self@[j].pos.y <= max_y
                        &&& min_z <= self@[j].pos.z <= max_z
                    },
                0 <= at_min_x < i && self@[at_min_x].pos.x == min_x,
                0 <= at_max_x < i && self@[at_max_x].pos.x == max_x,
                0 <= at_min_y < i && self@[at_min_y].pos.y == min_y,
                0 <= at_max_y < i && self@[at_max_y].pos.y == max_y,
                0 <= at_min_z < i && self@[at_min_z].pos.z == min_z,
                0 <= at_max_z < i && self@[at_max_z].pos.z == max_z,
            decreases n - i,
        {
            let e = &self.entries[i];
            assert(e@ == self@[i as int]);
            if e.x < min_x {
                min_x = e.x;
                proof {
                    at_min_x = i as int;
                }
            }
            if e.x > max_x {
                max_x = e.x;
                proof {
                    at_max_x = i as int;
                }
            }
            if e.y < min_y {
                min_y = e.y;
                proof {
                    at_min_y = i as int;
                }
            }
            if e.y > max_y {
                max_y = e.y;
                proof {
                    at_max_y = i as int;
                }
            }
            if e.z < min_z {
                min_z = e.z;
                proof {
                    at_min_z = i as int;
                }
            }
            if e.z > max_z {
                max_z = e.z;
                proof {
                    at_max_z = i as int;
                }
            }
            i += 1;
        }
        proof {
            lemma_min_attained(xs(self@), min_x as int, at_min_x);
            lemma_max_attained(xs(self@), max_x as int, at_max_x);
            lemma_min_attained(ys(self@), min_y as int, at_min_y);
            lemma_max_attained(ys(self@), max_y as int, at_max_y);
            lemma_min_attained(zs(self@), min_z as int, at_min_z);
            lemma_max_attained(zs(self@), max_z as int, at_max_z);
        }
        Ok(BoundingBox { min_x, max_x, min_y, max_y, min_z, max_z })
    }

    /// Whether the extents of the bounding box and the number of positions
    /// in it are 32-bit signed integers, as the encoders require.
    pub fn box_fits(&self) -> (fits: bool)
        ensures
            fits == box_fits(self@),
    {
        match self.bounding_box() {
            Err(_) => true,
            Ok(b) => {
                proof {
                    lemma_extents_positive(self@);
                }
                b.dimensions().is_some()
            },
        }
    }

    /// Stores `block` at (x, y, z). A block already at that position is
    /// replaced.
    pub fn insert(&mut self, x: i32, y: i32, z: i32, block: String)
        ensures
            final(self)@ == put(
                old(self)@,
                (Cell { pos: pos(x as int, y as int, z as int), block: block@ }),
            ),
    {
        proof {
            use_type_invariant(&*self);
        }
        let ghost before = self@;
        let ghost c = Cell { pos: pos(x as int, y as int, z as int), block: block@ };
        let k = self.position(x, y, z);
        let mut entries: Vec<Voxel> = Vec::new();
        std::mem::swap(&mut entries, &mut self.entries);
        assert(entries@.map_values(|v: Voxel| v@) == before);
        let replace = k < entries.len() && entries[k].x == x && entries[k].y == y && entries[k].z
            == z;
        assert(replace <==> (k < before.len() && before[k as int].pos == c.pos)) by {
            if k < before.len() {
                assert(before[k as int] == entries@[k as int]@);
            }
        }
        let voxel = Voxel { x, y, z, block };
        if replace {
            entries.set(k, voxel);
        } else {
            entries.insert(k, voxel);
        }
        let ghost after = entries@.map_values(|v: Voxel| v@);
        proof {
            assert(after =~= put(before, c));
            assert(seq![c][0] == c);
            lemma_put_well_formed(before, c);
        }
        self.entries = entries;
    }
}

/// A lower bound that some element attains is the minimum.
pub proof fn lemma_min_attained(s: Seq<int>, m: int, at: int)
    requires
        0 <= at < s.len(),
        s[at] == m,
        forall|j: int| 0 <= j < s.len() ==> m <= #[trigger] s[j],
    ensures
        s.min() == m,
{
    s.min_ensures();
    assert(s.contains(s.min()));
    let b = choose|b: int| 0 <= b < s.len() && s[b] == s.min();
    assert(m <= s[b]);
    assert(s.min() <= s[at]);
}

/// An upper bound that some element attains is the maximum.
pub proof fn lemma_max_attained(s: Seq<int>, m: int, at: int)
    requires
        0 <= at < s.len(),
        s[at] == m,
        forall|j: int| 0 <= j < s.len() ==> m >= #[trigger] s[j],
    ensures
        s.max() == m,
{
    s.max_ensures();
    assert(s.contains(s.max()));
    let b = choose|b: int| 0 <= b < s.len() && s[b] == s.max();
    assert(m >= s[b]);
    assert(s.max() >= s[at]);
}

/// Every entry lies inside the bounding box, so a map with entries has
/// extents of at least 1.
pub proof fn lemma_inside_box(cells: Seq<Cell>, i: int)
    requires
        0 <= i < cells.len(),
    ensures
        xs(cells).min() <= cells[i].pos.x <= xs(cells).max(),
        ys(cells).min() <= cells[i].pos.y <= ys(cells).max(),
        zs(cells).min() <= cells[i].pos.z <= zs(cells).max(),
{
    xs(cells).min_ensures();
    xs(cells).max_ensures();
    ys(cells).min_ensures();
    ys(cells).max_ensures();
    zs(cells).min_ensures();
    zs(cells).max_ensures();
    assert(xs(cells)[i] == cells[i].pos.x);
    assert(ys(cells)[i] == cells[i].pos.y);
    assert(zs(cells)[i] == cells[i].pos.z);
}

/// A map with entries has a bounding box with extents of at least 1.
pub proof fn lemma_extents_positive(cells: Seq<Cell>)
    requires
        cells.len() > 0,
    ensures
        width(cells) >= 1,
        height(cells) >= 1,
        length(cells) >= 1,
        volume(cells) >= 1,
{
    lemma_inside_box(cells, 0);
    let w = width(cells);
    let h = height(cells);
    let l = length(cells);
    assert(w * h * l >= 1) by (nonlinear_arith)
        requires
            w >= 1,
            h >= 1,
            l >= 1,
    ;
}

/// Storing an entry keeps the entries in order.
pub proof fn lemma_put_well_formed(cells: Seq<Cell>, c: Cell)
    requires
        strictly_ascending(cells),
    ensures
        strictly_ascending(put(cells, c)),
        within_i32(cells) && within_i32(seq![c]) ==> within_i32(put(cells, c)),
{
    if within_i32(cells) && within_i32(seq![c]) {
        assert(seq![c][0] == c);
        assert forall|i: int| 0 <= i < put(cells, c).len() implies {
            &&& i32::MIN <= (#[trigger] put(cells, c)[i]).pos.x <= i32::MAX
            &&& i32::MIN <= put(cells, c)[i].pos.y <= i32::MAX
            &&& i32::MIN <= put(cells, c)[i].pos.z <= i32::MAX
        } by {
            let k = rank(cells, c.pos);
            lemma_rank_splits(cells, c.pos);
            if k < cells.len() && cells[k].pos == c.pos {
                if i != k {
                    assert(put(cells, c)[i] == cells[i]);
                }
            } else if i < k {
                assert(put(cells, c)[i] == cells[i]);
            } else if i > k {
                assert(put(cells, c)[i] == cells[i - 1]);
            }
        }
    }
    let k = rank(cells, c.pos);
    lemma_rank_splits(cells, c.pos);
    let after = put(cells, c);
    assert forall|i: int, j: int| 0 <= i < j < after.len() implies pos_lt(
        (#[trigger] after[i]).pos,
        (#[trigger] after[j]).pos,
    ) by {
        if k < cells.len() && cells[k].pos == c.pos {
            assert(pos_lt(cells[i].pos, cells[j].pos));
        } else {
            let oi = if i < k { i } else { i - 1 };
            let oj = if j < k { j } else { j - 1 };
            if i != k && j != k {
                assert(pos_lt(cells[oi].pos, cells[oj].pos));
            } else if i == k {
                assert(!pos_lt(cells[oj].pos, c.pos));
                if k < oj {
                    assert(pos_lt(cells[k].pos, cells[oj].pos));
                }
            } else {
                assert(pos_lt(cells[oi].pos, c.pos));
            }
        }
    }
}

/// In a map, the entries before the rank of `p` lie before `p` and the
/// others do not.
pub proof fn lemma_rank_splits(cells: Seq<Cell>, p: Pos)
    requires
        strictly_ascending(cells),
    ensures
        0 <= rank(cells, p) <= cells.len(),
        forall|i: int| 0 <= i < rank(cells, p) ==> pos_lt((#[trigger] cells[i]).pos, p),
        forall|i: int| rank(cells, p) <= i < cells.len() ==> !pos_lt((#[trigger] cells[i]).pos, p),
    decreases cells.len(),
{
    if cells.len() > 0 {
        let front = cells.drop_last();
        let last = cells.len() - 1;
        assert forall|i: int, j: int| 0 <= i < j < front.len() implies pos_lt(
            (#[trigger] front[i]).pos,
            (#[trigger] front[j]).pos,
        ) by {
            assert(pos_lt(cells[i].pos, cells[j].pos));
        }
        lemma_rank_splits(front, p);
        let k = rank(front, p);
        if pos_lt(cells[last].pos, p) {
            assert forall|i: int| 0 <= i < last implies pos_lt((#[trigger] cells[i]).pos, p) by {
                assert(pos_lt(cells[i].pos, cells[last].pos));
            }
            if k < last {
                assert(!pos_lt(front[k].pos, p));
                assert(front[k] == cells[k]);
            }
            assert(k == last);
        } else {
            assert forall|i: int| 0 <= i < k implies pos_lt((#[trigger] cells[i]).pos, p) by {
                assert(front[i] == cells[i]);
            }
            assert forall|i: int| k <= i < cells.len() implies !pos_lt(
                (#[trigger] cells[i]).pos,
                p,
            ) by {
                if i < last {
                    assert(front[i] == cells[i]);
                }
            }
        }
    }
}

/// Storing an entry changes the block at its position and at no other.
pub proof fn lemma_put_block_at(cells: Seq<Cell>, c: Cell, p: Pos)
    requires
        strictly_ascending(cells),
    ensures
        block_at(put(cells, c), p) == if p == c.pos {
            Some(c.block)
        } else {
            block_at(cells, p)
        },
{
    let k = rank(cells, c.pos);
    let after = put(cells, c);
    let replaced = k < cells.len() && cells[k].pos == c.pos;
    lemma_rank_splits(cells, c.pos);
    lemma_put_well_formed(cells, c);
    if p == c.pos {
        assert(after[k] == c);
        lemma_block_at_entry(after, k);
    } else if occupied(cells, p) {
        let i = choose|i: int| 0 <= i < cells.len() && (#[trigger] cells[i]).pos == p;
        lemma_block_at_entry(cells, i);
        let t = if replaced || i < k {
            i
        } else {
            i + 1
        };
        assert(after[t] == cells[i]);
        lemma_block_at_entry(after, t);
    } else if occupied(after, p) {
        let t = choose|t: int| 0 <= t < after.len() && (#[trigger] after[t]).pos == p;
        let i = if replaced || t < k {
            t
        } else {
            t - 1
        };
        assert(after[t] == cells[i]);
    }
}

/// Without its last entry, a map holds the same blocks at all other
/// positions and nothing at the position of that entry.
pub proof fn lemma_block_at_front(cells: Seq<Cell>, p: Pos)
    requires
        strictly_ascending(cells),
        cells.len() > 0,
    ensures
        strictly_ascending(cells.drop_last()),
        block_at(cells.drop_last(), p) == if p == cells.last().pos {
            None
        } else {
            block_at(cells, p)
        },
{
    let front = cells.drop_last();
    let last = cells.len() - 1;
    assert forall|i: int, j: int| 0 <= i < j < front.len() implies pos_lt(
        (#[trigger] front[i]).pos,
        (#[trigger] front[j]).pos,
    ) by {
        assert(pos_lt(cells[i].pos, cells[j].pos));
    }
    if occupied(front, p) {
        let i = choose|i: int| 0 <= i < front.len() && (#[trigger] front[i]).pos == p;
        assert(front[i] == cells[i]);
        assert(pos_lt(cells[i].pos, cells[last].pos));
        lemma_block_at_entry(front, i);
        lemma_block_at_entry(cells, i);
    } else if p != cells.last().pos && occupied(cells, p) {
        let i = choose|i: int| 0 <= i < cells.len() && (#[trigger] cells[i]).pos == p;
        assert(front[i] == cells[i]);
    }
}

/// A map is determined by the blocks it holds: two maps that hold the same
/// block, or none, at every position have the same entries in the same
/// order.
pub proof fn lemma_entries_determined(a: Seq<Cell>, b: Seq<Cell>)
    requires
        strictly_ascending(a),
        strictly_ascending(b),
        forall|p: Pos| block_at(a, p) == block_at(b, p),
    ensures
        a == b,
    decreases a.len(),
{
    if a.len() == 0 {
        if b.len() > 0 {
            lemma_block_at_entry(b, 0);
            assert(block_at(a, b[0].pos) is None);
        }
        assert(a =~= b);
    } else {
        let n = a.len() - 1;
        lemma_block_at_entry(a, n);
        assert(block_at(b, a[n].pos) == Some(a[n].block));
        let j = choose|j: int| 0 <= j < b.len() && (#[trigger] b[j]).pos == a[n].pos;
        let m = b.len() - 1;
        lemma_block_at_entry(b, m);
        assert(block_at(a, b[m].pos) == Some(b[m].block));
        let i = choose|i: int| 0 <= i < a.len() && (#[trigger] a[i]).pos == b[m].pos;
        if j < m {
            assert(pos_lt(b[j].pos, b[m].pos));
        }
        if i < n {
            assert(pos_lt(a[i].pos, a[n].pos));
        }
        assert(a[n].pos == b[m].pos);
        assert(a[n].block == b[m].block);
        assert(a[n] == b[m]);
        assert forall|p: Pos| block_at(a.drop_last(), p) == block_at(b.drop_last(), p) by {
            lemma_block_at_front(a, p);
            lemma_block_at_front(b, p);
        }
        lemma_block_at_front(a, a[n].pos);
        lemma_block_at_front(b, a[n].pos);
        lemma_entries_determined(a.drop_last(), b.drop_last());
        assert(a =~= a.drop_last().push(a[n]));
        assert(b =~= b.drop_last().push(b[m]));
    }
}

} // verus!
