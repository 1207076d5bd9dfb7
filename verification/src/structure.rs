//! The structure format: the cells of the bounding box as one record each.
//!
//! A record holds the position of a cell relative to the corner of the box and
//! the palette code of the cell. The records stand in ascending order of x,
//! then y, then z. The slice of records with one x is a column; columns can
//! be computed independently of each other and joined in ascending order.

use vstd::prelude::*;

use crate::error::ExportError;
use crate::layout::{
    as_ints,
    cell_at,
    cell_code,
    dense,
    fill_codes,
    index_in,
    inside,
    lemma_cell_code_in_palette,
    lemma_cell_code_of_entry,
    lemma_index_of_cell,
    lemma_entries_fit_box,
    lemma_mixed_decode,
    measure,
    mixed,
    Layout,
};
use crate::nbt::{
    compound_entries,
    compound_new,
    nbt_document,
    nbt_new,
    put_fresh,
    tag_compound,
    tag_int,
    tag_list,
    tag_text,
    tag_tree,
    trees,
    Document,
    Tree,
};
use crate::palette::{blocks, code_of, lemma_palette_of, palette_of, Palette};
use crate::voxel::{
    box_fits, height, lemma_extents_positive, length, occupied, origin, well_formed, width,
    Cell, Pos, VoxelMap,
};

verus! {

/// One cell of the bounding box: its position relative to the corner with the
/// smallest coordinates, and its palette code.
#[derive(Clone, Copy, Debug, PartialEq, Eq, Structural)]
pub struct BlockRecord {
    pub x: i32,
    pub y: i32,
    pub z: i32,
    pub state: i32,
}

/// The record with number `i` in a box of height `h` and length `l`, for a
/// cell with the given code.
pub open spec fn record_of(h: int, l: int, i: int, code: int) -> BlockRecord {
    BlockRecord {
        x: ((i / l) / h) as i32,
        y: ((i / l) % h) as i32,
        z: (i % l) as i32,
        state: code as i32,
    }
}

/// The records for the codes of all cells, listed with z running fastest,
/// then y, then x.
pub open spec fn records_of(codes: Seq<int>, h: int, l: int) -> Seq<BlockRecord> {
    Seq::new(codes.len(), |i: int| record_of(h, l, i, codes[i]))
}

/// The records of the cells with the local x coordinate `x`.
pub open spec fn column_of(codes: Seq<int>, h: int, l: int, x: int) -> Seq<BlockRecord> {
    records_of(codes, h, l).subrange(x * (h * l), (x + 1) * (h * l))
}

/// The record list of a map: one record for every cell of the bounding box.
pub open spec fn structure_records(cells: Seq<Cell>) -> Seq<BlockRecord> {
    records_of(dense(cells, Layout::Structure), height(cells), length(cells))
}

/// Why a map cannot be written as a structure, if it cannot: it is empty.
pub open spec fn structure_refusal(cells: Seq<Cell>) -> Option<ExportError> {
    if cells.len() == 0 {
        Some(ExportError::EmptyInput)
    } else {
        None
    }
}

/// The tree of one record.
pub open spec fn record_tree(record: BlockRecord) -> Tree {
    Tree::Compound(
        seq![
            (
                "pos"@,
                Tree::List(seq![Tree::Int(record.x), Tree::Int(record.y), Tree::Int(record.z)]),
            ),
            ("state"@, Tree::Int(record.state)),
        ],
    )
}

/// The tree of one palette entry.
pub open spec fn name_tree(name: Seq<char>) -> Tree {
    Tree::Compound(seq![("Name"@, Tree::Text(name))])
}

/// The structure tree for the given extents, palette and records.
pub open spec fn structure_tree(
    w: i32,
    h: i32,
    l: i32,
    palette: Seq<Seq<char>>,
    records: Seq<BlockRecord>,
) -> Document {
    Document {
        name: Seq::empty(),
        root: seq![
            ("blocks"@, Tree::List(records.map_values(|r: BlockRecord| record_tree(r)))),
            ("entities"@, Tree::List(Seq::empty())),
            ("palette"@, Tree::List(palette.map_values(|name: Seq<char>| name_tree(name)))),
            ("size"@, Tree::List(seq![Tree::Int(w), Tree::Int(h), Tree::Int(l)])),
            ("DataVersion"@, Tree::Int(3953)),
        ],
    }
}

/// The structure tree of a map.
pub open spec fn structure_document(cells: Seq<Cell>) -> Document {
    structure_tree(
        width(cells) as i32,
        height(cells) as i32,
        length(cells) as i32,
        palette_of(blocks(cells)),
        structure_records(cells),
    )
}

/// The record list has one record for every cell of the bounding box. The
/// record of the cell at the local position (x, y, z) stands at index
/// `z + length * (y + height * x)` and holds that position and the code of
/// the cell, which is 0 where the map stores nothing.
pub proof fn lemma_record_of_cell(cells: Seq<Cell>, p: Pos)
    requires
        well_formed(cells),
        cells.len() > 0,
        box_fits(cells),
        inside(cells, p),
    ensures
        structure_records(cells).len() == width(cells) * height(cells) * length(cells),
        ({
            let o = origin(cells);
            let i = (p.z - o.z) + length(cells) * ((p.y - o.y) + height(cells) * (p.x - o.x));
            &&& 0 <= i < structure_records(cells).len()
            &&& structure_records(cells)[i].x == p.x - o.x
            &&& structure_records(cells)[i].y == p.y - o.y
            &&& structure_records(cells)[i].z == p.z - o.z
            &&& structure_records(cells)[i].state == cell_code(cells, p)
            &&& !occupied(cells, p) ==> structure_records(cells)[i].state == 0
        }),
{
    lemma_extents_positive(cells);
    lemma_entries_fit_box(cells);
    lemma_palette_of(blocks(cells));
    lemma_index_of_cell(cells, Layout::Structure, p);
    lemma_cell_code_in_palette(cells, p);
    let i = index_in(cells, Layout::Structure, p);
    assert(dense(cells, Layout::Structure)[i] == cell_code(cells, p));
}

/// The record list holds the palette code of every entry of the map in the
/// record of its cell.
pub proof fn lemma_record_of_entry(cells: Seq<Cell>, j: int)
    requires
        well_formed(cells),
        box_fits(cells),
        0 <= j < cells.len(),
    ensures
        ({
            let o = origin(cells);
            let p = cells[j].pos;
            let i = (p.z - o.z) + length(cells) * ((p.y - o.y) + height(cells) * (p.x - o.x));
            &&& 0 <= i < structure_records(cells).len()
            &&& structure_records(cells)[i].state == code_of(
                palette_of(blocks(cells)),
                cells[j].block,
            )
        }),
{
    lemma_cell_code_of_entry(cells, j);
    lemma_record_of_cell(cells, cells[j].pos);
}

/// The number of the cell (x, y, z) counted from the start of its column.
proof fn lemma_column_step(x: int, y: int, z: int, h: int, l: int)
    requires
        0 <= x,
        0 <= y < h,
        0 <= z < l,
    ensures
        x * (h * l) + y * l + z == mixed(z, l, y, h, x),
        0 <= y * l + z < h * l,
        0 <= x * (h * l),
        (y + 1) * l == y * l + l,
{
    assert(x * (h * l) + y * l == l * (y + h * x)) by (nonlinear_arith);
    assert(0 <= y * l + z < h * l) by (nonlinear_arith)
        requires
            0 <= y < h,
            0 <= z < l,
    ;
    assert(0 <= x * (h * l)) by (nonlinear_arith)
        requires
            0 <= x,
            0 < h,
            0 < l,
    ;
    assert((y + 1) * l == y * l + l) by (nonlinear_arith);
}

/// The records of the column with the local x coordinate `x`, for the codes
/// of all cells in the order of [`Layout::Structure`].
pub fn record_column(codes: &Vec<usize>, h: i32, l: i32, x: i32) -> (column: Vec<BlockRecord>)
    requires
        1 <= h,
        1 <= l,
        0 <= x,
        (x + 1) * (h * l) <= codes@.len(),
        codes@.len() <= i32::MAX,
        forall|i: int| 0 <= i < codes@.len() ==> #[trigger] codes@[i] <= i32::MAX,
    ensures
        column@ == column_of(as_ints(codes@), h as int, l as int, x as int),
{
    proof {
        assert(0 < h * l <= (x + 1) * (h * l) && x * (h * l) + h * l == (x + 1) * (h * l)
            && 0 <= x * (h * l)) by (nonlinear_arith)
            requires
                1 <= h,
                1 <= l,
                0 <= x,
        ;
    }
    let ghost all = records_of(as_ints(codes@), h as int, l as int);
    let slice: i32 = h * l;
    let base: i32 = x * slice;
    let mut column: Vec<BlockRecord> = Vec::with_capacity(slice as usize);
    let mut y: i32 = 0;
    while y < h
        invariant
            0 <= y <= h,
            1 <= h,
            1 <= l,
            0 <= x,
            slice == h * l,
            base == x * (h * l),
            base + slice <= codes@.len(),
            codes@.len() <= i32::MAX,
            forall|i: int| 0 <= i < codes@.len() ==> #[trigger] codes@[i] <= i32::MAX,
            all == records_of(as_ints(codes@), h as int, l as int),
            column@.len() == y * l,
            forall|k: int| 0 <= k < column@.len() ==> #[trigger] column@[k] == all[base + k],
        decreases h - y,
    {
        let mut z: i32 = 0;
        while z < l
            invariant
                0 <= y < h,
                0 <= z <= l,
                1 <= h,
                1 <= l,
                0 <= x,
                slice == h * l,
                base == x * (h * l),
                base + slice <= codes@.len(),
                codes@.len() <= i32::MAX,
                forall|i: int| 0 <= i < codes@.len() ==> #[trigger] codes@[i] <= i32::MAX,
                all == records_of(as_ints(codes@), h as int, l as int),
                column@.len() == y * l + z,
                forall|k: int| 0 <= k < column@.len() ==> #[trigger] column@[k] == all[base + k],
            decreases l - z,
        {
            proof {
                lemma_column_step(x as int, y as int, z as int, h as int, l as int);
                lemma_mixed_decode(z as int, l as int, y as int, h as int, x as int);
            }
            let i: i32 = base + y * l + z;
            let record = BlockRecord { x, y, z, state: codes[i as usize] as i32 };
            assert(record == all[i as int]);
            column.push(record);
            z += 1;
        }
        proof {
            lemma_column_step(x as int, y as int, 0, h as int, l as int);
        }
        y += 1;
    }
    assert(column@ =~= column_of(as_ints(codes@), h as int, l as int, x as int));
    column
}

/// The records of all cells, for the codes of all cells in the order of
/// [`Layout::Structure`]: the columns, joined in ascending order of x.
pub fn records_from_codes(codes: &Vec<usize>, w: i32, h: i32, l: i32) -> (records: Vec<BlockRecord>)
    requires
        1 <= w,
        1 <= h,
        1 <= l,
        w * h * l == codes@.len(),
        codes@.len() <= i32::MAX,
        forall|i: int| 0 <= i < codes@.len() ==> #[trigger] codes@[i] <= i32::MAX,
    ensures
        records@ == records_of(as_ints(codes@), h as int, l as int),
{
    let ghost all = records_of(as_ints(codes@), h as int, l as int);
    let mut records: Vec<BlockRecord> = Vec::with_capacity(codes.len());
    let mut x: i32 = 0;
    while x < w
        invariant
            0 <= x <= w,
            1 <= h,
            1 <= l,
            w * h * l == codes@.len(),
            codes@.len() <= i32::MAX,
            forall|i: int| 0 <= i < codes@.len() ==> #[trigger] codes@[i] <= i32::MAX,
            all == records_of(as_ints(codes@), h as int, l as int),
            records@ == all.subrange(0, x * (h * l)),
        decreases w - x,
    {
        proof {
            assert(0 <= x * (h * l) && (x + 1) * (h * l) == x * (h * l) + h * l && (x + 1) * (h
                * l) <= w * h * l && 0 < h * l) by (nonlinear_arith)
                requires
                    0 <= x < w,
                    1 <= h,
                    1 <= l,
            ;
        }
        let mut column = record_column(codes, h, l, x);
        records.append(&mut column);
        assert(records@ =~= all.subrange(0, (x + 1) * (h * l)));
        x += 1;
    }
    proof {
        assert(w * (h * l) == w * h * l) by (nonlinear_arith);
        assert(records@ =~= all);
    }
    records
}

/// Extents, palette and records of a map.
fn structure_parts(map: &VoxelMap) -> (parts: Result<
    (i32, i32, i32, Palette, Vec<BlockRecord>),
    ExportError,
>)
    requires
        box_fits(map@),
    ensures
        match parts {
            Ok((w, h, l, palette, records)) => {
                &&& map@.len() > 0
                &&& w == width(map@)
                &&& h == height(map@)
                &&& l == length(map@)
                &&& palette@ == palette_of(blocks(map@))
                &&& records@ == structure_records(map@)
            },
            Err(e) => structure_refusal(map@) == Some(e),
        },
{
    let (b, w, h, l) = match measure(map) {
        Ok(measured) => measured,
        Err(e) => {
            return Err(e);
        },
    };
    let (palette, codes) = Palette::build_indexed(map);
    let listed = fill_codes(map, Layout::Structure, &b, w, h, l, &codes);
    proof {
        use_type_invariant(map);
        lemma_extents_positive(map@);
        lemma_entries_fit_box(map@);
        lemma_palette_of(blocks(map@));
        assert(dense(map@, Layout::Structure).len() == listed@.len());
        assert forall|i: int| 0 <= i < listed@.len() implies #[trigger] listed@[i] <= i32::MAX by {
            assert(as_ints(listed@)[i] == listed@[i]);
            assert(dense(map@, Layout::Structure)[i] == cell_code(
                map@,
                cell_at(map@, Layout::Structure, i),
            ));
            lemma_cell_code_in_palette(map@, cell_at(map@, Layout::Structure, i));
        }
    }
    let records = records_from_codes(&listed, w, h, l);
    Ok((w, h, l, palette, records))
}

/// The record list of the structure format, or the reason why the map has
/// none.
pub fn block_records(map: &VoxelMap) -> (records: Result<Vec<BlockRecord>, ExportError>)
    requires
        box_fits(map@),
    ensures
        match records {
            Ok(list) => map@.len() > 0 && list@ == structure_records(map@),
            Err(e) => structure_refusal(map@) == Some(e),
        },
{
    match structure_parts(map) {
        Ok((_, _, _, _, records)) => Ok(records),
        Err(e) => Err(e),
    }
}

/// The field names of the structure tree differ from each other by their
/// lengths.
proof fn lemma_field_names()
    ensures
        "pos"@.len() == 3,
        "state"@.len() == 5,
        "blocks"@.len() == 6,
        "entities"@.len() == 8,
        "palette"@.len() == 7,
        "size"@.len() == 4,
        "DataVersion"@.len() == 11,
{
    reveal_strlit("pos");
    reveal_strlit("state");
    reveal_strlit("blocks");
    reveal_strlit("entities");
    reveal_strlit("palette");
    reveal_strlit("size");
    reveal_strlit("DataVersion");
}

/// The tag of one record: its position as a list of three integers under
/// `pos`, and its palette code under `state`.
pub fn get_block(x: i32, y: i32, z: i32, state: i32) -> (tag: crab_nbt::NbtTag)
    ensures
        tag_tree(tag) == record_tree((BlockRecord { x, y, z, state })),
{
    proof {
        lemma_field_names();
    }
    let mut position: Vec<crab_nbt::NbtTag> = Vec::new();
    position.push(tag_int(x));
    position.push(tag_int(y));
    position.push(tag_int(z));
    assert(trees(position@) =~= seq![Tree::Int(x), Tree::Int(y), Tree::Int(z)]);
    let mut record = compound_new();
    put_fresh(&mut record, "pos".to_owned(), tag_list(position));
    put_fresh(&mut record, "state".to_owned(), tag_int(state));
    assert(compound_entries(record) =~= record_tree((BlockRecord { x, y, z, state }))->Compound_0);
    tag_compound(record)
}

/// The structure tree for the given extents, palette and records.
pub fn assemble_structure(
    w: i32,
    h: i32,
    l: i32,
    palette: &Palette,
    records: &Vec<BlockRecord>,
) -> (nbt: crab_nbt::Nbt)
    ensures
        nbt_document(nbt) == structure_tree(w, h, l, palette@, records@),
{
    let ghost expected = structure_tree(w, h, l, palette@, records@);
    let mut block_tags: Vec<crab_nbt::NbtTag> = Vec::with_capacity(records.len());
    let mut i: usize = 0;
    while i < records.len()
        invariant
            i <= records@.len(),
            block_tags@.len() == i,
            forall|k: int| 0 <= k < i ==> tag_tree(#[trigger] block_tags@[k]) == record_tree(records@[k]),
        decreases records@.len() - i,
    {
        let r = &records[i];
        block_tags.push(get_block(r.x, r.y, r.z, r.state));
        i += 1;
    }
    assert(trees(block_tags@) =~= records@.map_values(|r: BlockRecord| record_tree(r)));
    let mut name_tags: Vec<crab_nbt::NbtTag> = Vec::with_capacity(palette.len());
    let mut j: usize = 0;
    while j < palette.len()
        invariant
            j <= palette@.len(),
            name_tags@.len() == j,
            forall|k: int| 0 <= k < j ==> tag_tree(#[trigger] name_tags@[k]) == name_tree(palette@[k]),
        decreases palette@.len() - j,
    {
        let mut entry = compound_new();
        put_fresh(&mut entry, "Name".to_owned(), tag_text(palette.name(j).clone()));
        assert(compound_entries(entry) =~= name_tree(palette@[j as int])->Compound_0);
        name_tags.push(tag_compound(entry));
        j += 1;
    }
    assert(trees(name_tags@) =~= palette@.map_values(|name: Seq<char>| name_tree(name)));
    let mut size: Vec<crab_nbt::NbtTag> = Vec::new();
    size.push(tag_int(w));
    size.push(tag_int(h));
    size.push(tag_int(l));
    assert(trees(size@) =~= seq![Tree::Int(w), Tree::Int(h), Tree::Int(l)]);
    let none: Vec<crab_nbt::NbtTag> = Vec::new();
    assert(trees(none@) =~= Seq::<Tree>::empty());
    proof {
        lemma_field_names();
    }
    let mut root = compound_new();
    put_fresh(&mut root, "blocks".to_owned(), tag_list(block_tags));
    put_fresh(&mut root, "entities".to_owned(), tag_list(none));
    put_fresh(&mut root, "palette".to_owned(), tag_list(name_tags));
    put_fresh(&mut root, "size".to_owned(), tag_list(size));
    put_fresh(&mut root, "DataVersion".to_owned(), tag_int(3953));
    assert(compound_entries(root) =~= expected.root);
    nbt_new(String::new(), root)
}

/// Encodes a map in the structure format.
pub fn to_structure(map: &VoxelMap) -> (encoded: Result<crab_nbt::Nbt, ExportError>)
    requires
        box_fits(map@),
    ensures
        match encoded {
            Ok(nbt) => map@.len() > 0 && nbt_document(nbt) == structure_document(map@),
            Err(e) => structure_refusal(map@) == Some(e),
        },
{
    match structure_parts(map) {
        Ok((w, h, l, palette, records)) => Ok(assemble_structure(w, h, l, &palette, &records)),
        Err(e) => Err(e),
    }
}

} // verus!
