//! Dense layouts: how the cells of a bounding box are numbered.
//!
//! Both formats store one palette code for every cell of the bounding box,
//! occupied or not. They differ in the order of the cells. A [`Layout`] names
//! the order, and [`dense_codes`] lists the codes in it.

use vstd::arithmetic::div_mod::{
    lemma_fundamental_div_mod,
    lemma_fundamental_div_mod_converse,
    lemma_mod_bound,
};
use vstd::prelude::*;
use vstd::set_lib::{lemma_int_range, lemma_len_subset, lemma_map_size, set_int_range};

use crate::error::ExportError;
use crate::palette::{blocks, code_of, lemma_palette_of, palette_of, Palette};
use crate::voxel::{
    block_at,
    box_fits,
    height,
    lemma_block_at_entry,
    lemma_extents_positive,
    lemma_inside_box,
    length,
    occupied,
    origin,
    pos,
    pos_lt,
    strictly_ascending,
    volume,
    well_formed,
    width,
    xs,
    ys,
    zs,
    BoundingBox,
    Cell,
    Pos,
    VoxelMap,
};

verus! {

/// The number of the cell (a, b, c) where `a` runs fastest through `na`
/// values, then `b` through `nb` values, then `c`.
pub open spec fn mixed(a: int, na: int, b: int, nb: int, c: int) -> int {
    a + na * (b + nb * c)
}

/// A cell number stays below the number of cells, and so does every step of
/// its computation.
pub proof fn lemma_mixed_bounds(a: int, na: int, b: int, nb: int, c: int, nc: int)
    requires
        0 <= a < na,
        0 <= b < nb,
        0 <= c < nc,
    ensures
        0 <= nb * c <= nb * nc - nb,
        0 <= b + nb * c < nb * nc,
        0 <= na * (b + nb * c) <= na * (nb * nc) - na,
        0 <= mixed(a, na, b, nb, c) < na * (nb * nc),
        nb * nc <= na * (nb * nc),
        na * (nb * nc) == na * nb * nc,
{
    assert(0 <= nb * c <= nb * nc - nb) by (nonlinear_arith)
        requires
            0 <= c < nc,
            0 < nb,
    ;
    let q = b + nb * c;
    let m = nb * nc;
    assert(0 <= na * q <= na * m - na) by (nonlinear_arith)
        requires
            0 <= q < m,
            0 < na,
    ;
    assert(m <= na * m) by (nonlinear_arith)
        requires
            0 < m,
            1 <= na,
    ;
    assert(na * (nb * nc) == na * nb * nc) by (nonlinear_arith);
}

/// The three coordinates of a cell can be read off its number.
pub proof fn lemma_mixed_decode(a: int, na: int, b: int, nb: int, c: int)
    requires
        0 <= a < na,
        0 <= b < nb,
    ensures
        mixed(a, na, b, nb, c) % na == a,
        (mixed(a, na, b, nb, c) / na) % nb == b,
        (mixed(a, na, b, nb, c) / na) / nb == c,
{
    let q = b + nb * c;
    let i = mixed(a, na, b, nb, c);
    assert(i == q * na + a) by (nonlinear_arith)
        requires
            i == a + na * q,
    ;
    lemma_fundamental_div_mod_converse(i, na, q, a);
    assert(q == c * nb + b) by (nonlinear_arith)
        requires
            q == b + nb * c,
    ;
    lemma_fundamental_div_mod_converse(q, nb, c, b);
}

/// Every number below the number of cells is the number of exactly the cell
/// whose coordinates are read off it.
pub proof fn lemma_mixed_encode(i: int, na: int, nb: int, nc: int)
    requires
        0 < na,
        0 < nb,
        0 < nc,
        0 <= i < na * (nb * nc),
    ensures
        0 <= i % na < na,
        0 <= (i / na) % nb < nb,
        0 <= (i / na) / nb < nc,
        mixed(i % na, na, (i / na) % nb, nb, (i / na) / nb) == i,
{
    lemma_fundamental_div_mod(i, na);
    lemma_mod_bound(i, na);
    let q = i / na;
    let r = i % na;
    let m = nb * nc;
    assert(0 <= q < m) by (nonlinear_arith)
        requires
            i == na * q + r,
            0 <= r < na,
            0 <= i < na * m,
            0 < na,
    ;
    lemma_fundamental_div_mod(q, nb);
    lemma_mod_bound(q, nb);
    let c = q / nb;
    let s = q % nb;
    assert(0 <= c < nc) by (nonlinear_arith)
        requires
            q == nb * c + s,
            0 <= s < nb,
            0 <= q < nb * nc,
            0 < nb,
    ;
}

/// The order in which the cells of a bounding box are numbered.
#[derive(Clone, Copy, Debug, PartialEq, Eq, Structural)]
pub enum Layout {
    /// x runs fastest, then z, then y: the cell at the local position
    /// (x, y, z) has the number `x + width * (z + length * y)`.
    Schematic,
    /// z runs fastest, then y, then x: the cell at the local position
    /// (x, y, z) has the number `z + length * (y + height * x)`.
    Structure,
}

/// `p` lies in the bounding box of the entries.
pub open spec fn inside(cells: Seq<Cell>, p: Pos) -> bool {
    &&& xs(cells).min() <= p.x <= xs(cells).max()
    &&& ys(cells).min() <= p.y <= ys(cells).max()
    &&& zs(cells).min() <= p.z <= zs(cells).max()
}

/// The number of the cell at `p` in the given layout.
pub open spec fn index_in(cells: Seq<Cell>, layout: Layout, p: Pos) -> int {
    let o = origin(cells);
    match layout {
        Layout::Schematic => mixed(p.x - o.x, width(cells), p.z - o.z, length(cells), p.y - o.y),
        Layout::Structure => mixed(p.z - o.z, length(cells), p.y - o.y, height(cells), p.x - o.x),
    }
}

/// The position of the cell with number `i` in the given layout.
pub open spec fn cell_at(cells: Seq<Cell>, layout: Layout, i: int) -> Pos {
    let o = origin(cells);
    let w = width(cells);
    let h = height(cells);
    let l = length(cells);
    match layout {
        Layout::Schematic => pos(o.x + i % w, o.y + (i / w) / l, o.z + (i / w) % l),
        Layout::Structure => pos(o.x + (i / l) / h, o.y + (i / l) % h, o.z + i % l),
    }
}

/// The palette code of the cell at `p`: the code of the block stored there,
/// and 0, the code of air, where nothing is stored.
pub open spec fn cell_code(cells: Seq<Cell>, p: Pos) -> int {
    match block_at(cells, p) {
        Some(block) => code_of(palette_of(blocks(cells)), block),
        None => 0,
    }
}

/// The palette codes of all cells of the bounding box, in the order of the
/// layout.
pub open spec fn dense(cells: Seq<Cell>, layout: Layout) -> Seq<int> {
    Seq::new(volume(cells) as nat, |i: int| cell_code(cells, cell_at(cells, layout, i)))
}

/// The code of every cell is a code of the palette.
pub proof fn lemma_cell_code_in_palette(cells: Seq<Cell>, p: Pos)
    ensures
        0 <= cell_code(cells, p) < palette_of(blocks(cells)).len(),
{
    let palette = palette_of(blocks(cells));
    lemma_palette_of(blocks(cells));
    if occupied(cells, p) {
        let i = choose|i: int| 0 <= i < cells.len() && (#[trigger] cells[i]).pos == p;
        assert(blocks(cells)[i] == cells[i].block);
        assert(palette.contains(blocks(cells)[i]));
    }
}

/// The cell of an entry lies inside the box and has the code of the entry's
/// block.
pub proof fn lemma_cell_code_of_entry(cells: Seq<Cell>, j: int)
    requires
        strictly_ascending(cells),
        0 <= j < cells.len(),
    ensures
        inside(cells, cells[j].pos),
        occupied(cells, cells[j].pos),
        cell_code(cells, cells[j].pos) == code_of(palette_of(blocks(cells)), cells[j].block),
{
    lemma_inside_box(cells, j);
    lemma_block_at_entry(cells, j);
}

/// A position inside the box has a number below the volume, and is the cell
/// with that number.
pub proof fn lemma_index_of_cell(cells: Seq<Cell>, layout: Layout, p: Pos)
    requires
        inside(cells, p),
    ensures
        0 <= index_in(cells, layout, p) < volume(cells),
        cell_at(cells, layout, index_in(cells, layout, p)) == p,
{
    let o = origin(cells);
    let w = width(cells);
    let h = height(cells);
    let l = length(cells);
    match layout {
        Layout::Schematic => {
            lemma_mixed_bounds(p.x - o.x, w, p.z - o.z, l, p.y - o.y, h);
            lemma_mixed_decode(p.x - o.x, w, p.z - o.z, l, p.y - o.y);
            assert(w * l * h == w * h * l) by (nonlinear_arith);
        },
        Layout::Structure => {
            lemma_mixed_bounds(p.z - o.z, l, p.y - o.y, h, p.x - o.x, w);
            lemma_mixed_decode(p.z - o.z, l, p.y - o.y, h, p.x - o.x);
            assert(l * h * w == w * h * l) by (nonlinear_arith);
        },
    }
}

/// A number below the volume is the number of a cell inside the box.
pub proof fn lemma_cell_of_index(cells: Seq<Cell>, layout: Layout, i: int)
    requires
        cells.len() > 0,
        0 <= i < volume(cells),
    ensures
        inside(cells, cell_at(cells, layout, i)),
        index_in(cells, layout, cell_at(cells, layout, i)) == i,
{
    lemma_extents_positive(cells);
    let w = width(cells);
    let h = height(cells);
    let l = length(cells);
    match layout {
        Layout::Schematic => {
            assert(w * (l * h) == w * h * l) by (nonlinear_arith);
            lemma_mixed_encode(i, w, l, h);
        },
        Layout::Structure => {
            assert(l * (h * w) == w * h * l) by (nonlinear_arith);
            lemma_mixed_encode(i, l, h, w);
        },
    }
}

/// A map has at most as many entries as its bounding box has cells, since no
/// two entries lie in the same cell.
pub proof fn lemma_entries_fit_box(cells: Seq<Cell>)
    requires
        strictly_ascending(cells),
        cells.len() > 0,
    ensures
        cells.len() <= volume(cells),
{
    let n = cells.len() as int;
    let number = |t: int| index_in(cells, Layout::Structure, cells[t].pos);
    let entries = set_int_range(0, n);
    let numbers = entries.map(number);
    let all = set_int_range(0, volume(cells));
    lemma_extents_positive(cells);
    lemma_int_range(0, n);
    lemma_int_range(0, volume(cells));
    assert forall|a: int, b: int|
        entries.contains(a) && entries.contains(b) && #[trigger] number(a) == #[trigger] number(
            b,
        ) implies a == b by {
        lemma_inside_box(cells, a);
        lemma_inside_box(cells, b);
        lemma_index_of_cell(cells, Layout::Structure, cells[a].pos);
        lemma_index_of_cell(cells, Layout::Structure, cells[b].pos);
        if a < b {
            assert(pos_lt(cells[a].pos, cells[b].pos));
        } else if b < a {
            assert(pos_lt(cells[b].pos, cells[a].pos));
        }
    }
    lemma_map_size(entries, numbers, number);
    assert forall|v: int| numbers.contains(v) implies all.contains(v) by {
        let t = choose|t: int| entries.contains(t) && v == number(t);
        lemma_inside_box(cells, t);
        lemma_index_of_cell(cells, Layout::Structure, cells[t].pos);
    }
    lemma_len_subset(numbers, all);
}

/// No entry before index `j` lies in the cell with number `i`.
pub open spec fn unhit(cells: Seq<Cell>, layout: Layout, j: int, i: int) -> bool {
    forall|t: int| 0 <= t < j ==> index_in(cells, layout, (#[trigger] cells[t]).pos) != i
}

/// The codes as mathematical integers.
pub open spec fn as_ints(codes: Seq<usize>) -> Seq<int> {
    codes.map_values(|c: usize| c as int)
}

/// The bounding box of a map together with its width, height and length, or
/// `EmptyInput` where the map has no entries.
pub fn measure(map: &VoxelMap) -> (measured: Result<(BoundingBox, i32, i32, i32), ExportError>)
    requires
        box_fits(map@),
    ensures
        match measured {
            Ok((b, w, h, l)) => {
                &&& map@.len() > 0
                &&& b.spans(map@)
                &&& w == width(map@)
                &&& h == height(map@)
                &&& l == length(map@)
            },
            Err(e) => map@.len() == 0 && e == ExportError::EmptyInput,
        },
{
    match map.bounding_box() {
        Err(e) => Err(e),
        Ok(b) => {
            proof {
                lemma_extents_positive(map@);
            }
            match b.dimensions() {
                Some((w, h, l)) => Ok((b, w, h, l)),
                None => vstd::pervasive::unreached(),
            }
        },
    }
}

/// The number of the cell at (x, y, z), computed in 32-bit arithmetic.
fn cell_index(
    map: &VoxelMap,
    layout: Layout,
    b: &BoundingBox,
    w: i32,
    h: i32,
    l: i32,
    x: i32,
    y: i32,
    z: i32,
) -> (i: usize)
    requires
        map@.len() > 0,
        box_fits(map@),
        b.spans(map@),
        w == width(map@),
        h == height(map@),
        l == length(map@),
        inside(map@, pos(x as int, y as int, z as int)),
    ensures
        i == index_in(map@, layout, pos(x as int, y as int, z as int)),
        i < volume(map@),
{
    let ghost p = pos(x as int, y as int, z as int);
    proof {
        lemma_index_of_cell(map@, layout, p);
        lemma_mixed_bounds(p.x - b.min_x, w as int, p.z - b.min_z, l as int, p.y - b.min_y, h as int);
        lemma_mixed_bounds(p.z - b.min_z, l as int, p.y - b.min_y, h as int, p.x - b.min_x, w as int);
        assert(w * l * h == w * h * l) by (nonlinear_arith);
        assert(l * h * w == w * h * l) by (nonlinear_arith);
    }
    let lx = x - b.min_x;
    let ly = y - b.min_y;
    let lz = z - b.min_z;
    let i = match layout {
        Layout::Schematic => lx + w * (lz + l * ly),
        Layout::Structure => lz + l * (ly + h * lx),
    };
    i as usize
}

/// The codes of all cells, given the code of the block of each entry.
pub(crate) fn fill_codes(
    map: &VoxelMap,
    layout: Layout,
    b: &BoundingBox,
    w: i32,
    h: i32,
    l: i32,
    codes: &Vec<usize>,
) -> (out: Vec<usize>)
    requires
        map@.len() > 0,
        box_fits(map@),
        b.spans(map@),
        w == width(map@),
        h == height(map@),
        l == length(map@),
        codes@.len() == map@.len(),
        forall|j: int|
            0 <= j < map@.len() ==> (#[trigger] codes@[j]) as int == code_of(
                palette_of(blocks(map@)),
                map@[j].block,
            ),
    ensures
        as_ints(out@) == dense(map@, layout),
{
    proof {
        use_type_invariant(map);
        lemma_extents_positive(map@);
        assert(0 <= w * h <= w * h * l) by (nonlinear_arith)
            requires
                w >= 1,
                h >= 1,
                l >= 1,
        ;
    }
    let ghost cells = map@;
    let total: usize = (w * h * l) as usize;
    let mut out: Vec<usize> = vec![0usize; total];
    let n = map.len();
    let mut j: usize = 0;
    while j < n
        invariant
            j <= n,
            n == cells.len(),
            cells == map@,
            n > 0,
            well_formed(cells),
            box_fits(cells),
            b.spans(cells),
            w == width(cells),
            h == height(cells),
            l == length(cells),
            total == volume(cells),
            out@.len() == total,
            codes@.len() == n,
            forall|t: int|
                0 <= t < j ==> out@[index_in(cells, layout, (#[trigger] cells[t]).pos)]
                    == codes@[t],
            forall|i: int| 0 <= i < total && unhit(cells, layout, j as int, i) ==> #[trigger] out@[i] == 0,
        decreases n - j,
    {
        let voxel = map.entry(j);
        proof {
            lemma_inside_box(cells, j as int);
        }
        let i = cell_index(map, layout, b, w, h, l, voxel.x, voxel.y, voxel.z);
        let ghost before = out@;
        out.set(i, codes[j]);
        proof {
            assert forall|t: int| 0 <= t < j + 1 implies out@[index_in(
                cells,
                layout,
                (#[trigger] cells[t]).pos,
            )] == codes@[t] by {
                lemma_inside_box(cells, t);
                lemma_index_of_cell(cells, layout, cells[t].pos);
                lemma_index_of_cell(cells, layout, cells[j as int].pos);
                if t < j {
                    assert(pos_lt(cells[t].pos, cells[j as int].pos));
                }
            }
            assert forall|k: int| 0 <= k < total && unhit(cells, layout, j + 1, k) implies #[trigger] out@[k]
                == 0 by {
                assert(index_in(cells, layout, cells[j as int].pos) != k);
                assert(unhit(cells, layout, j as int, k));
                assert(before[k] == 0);
            }
        }
        j += 1;
    }
    proof {
        assert forall|i: int| 0 <= i < total implies as_ints(out@)[i] == dense(cells, layout)[i] by {
            let p = cell_at(cells, layout, i);
            lemma_cell_of_index(cells, layout, i);
            if occupied(cells, p) {
                let t = choose|t: int| 0 <= t < cells.len() && (#[trigger] cells[t]).pos == p;
                lemma_block_at_entry(cells, t);
            } else {
                assert forall|t: int| 0 <= t < n implies index_in(
                    cells,
                    layout,
                    (#[trigger] cells[t]).pos,
                ) != i by {
                    lemma_inside_box(cells, t);
                    lemma_index_of_cell(cells, layout, cells[t].pos);
                }
                assert(unhit(cells, layout, n as int, i));
            }
        }
        assert(as_ints(out@) =~= dense(cells, layout));
    }
    out
}

/// The palette codes of all cells of the bounding box of `map`, in the order
/// of `layout`.
pub fn dense_codes(map: &VoxelMap, layout: Layout) -> (listed: Result<Vec<usize>, ExportError>)
    requires
        box_fits(map@),
    ensures
        match listed {
            Ok(out) => map@.len() > 0 && as_ints(out@) == dense(map@, layout),
            Err(e) => map@.len() == 0 && e == ExportError::EmptyInput,
        },
{
    match measure(map) {
        Err(e) => Err(e),
        Ok((b, w, h, l)) => {
            let (_, codes) = Palette::build_indexed(map);
            Ok(fill_codes(map, layout, &b, w, h, l, &codes))
        },
    }
}

} // verus!
