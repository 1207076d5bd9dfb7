//! The schematic format: the cells of the bounding box as one byte each.
//!
//! The tree holds the extents of the box as 16-bit integers, the palette as a
//! table from identifier to code, and the codes of all cells as a byte array
//! in which x runs fastest, then z, then y.

use vstd::prelude::*;

use crate::error::ExportError;
use crate::layout::{as_ints, dense, fill_codes, lemma_cell_code_in_palette, measure, Layout};
use crate::layout::{
    cell_at, cell_code, index_in, inside, lemma_cell_code_of_entry, lemma_index_of_cell,
};
use crate::nbt::{
    compound_entries,
    compound_new,
    put_fresh,
    nbt_document,
    nbt_new,
    tag_byte_array,
    tag_compound,
    tag_int,
    tag_list,
    tag_short,
    trees,
    Document,
    Tree,
};
use crate::palette::{blocks, code_of, palette_of, valid_palette, Palette};
use crate::voxel::{
    box_fits, height, lemma_extents_positive, length, occupied, origin, well_formed, width, Cell,
    Pos, VoxelMap,
};

verus! {

/// Why a map cannot be written as a schematic, if it cannot: it is empty, or
/// its palette needs a code above 255.
pub open spec fn schem_refusal(cells: Seq<Cell>) -> Option<ExportError> {
    if cells.len() == 0 {
        Some(ExportError::EmptyInput)
    } else if palette_of(blocks(cells)).len() > 256 {
        Some(ExportError::PaletteOverflow)
    } else {
        None
    }
}

/// The byte grid of a map: the code of every cell of the bounding box, where
/// the cell at the local position (x, y, z) stands at index
/// `x + width * (z + length * y)`.
pub open spec fn schem_grid(cells: Seq<Cell>) -> Seq<u8> {
    dense(cells, Layout::Schematic).map_values(|code: int| code as u8)
}

/// The palette as the entries of a compound: each identifier with its code.
pub open spec fn palette_table(palette: Seq<Seq<char>>) -> Seq<(Seq<char>, Tree)> {
    Seq::new(palette.len(), |i: int| (palette[i], Tree::Int(i as i32)))
}

/// The schematic tree for the given extents, palette and byte grid.
pub open spec fn schem_tree(w: int, h: int, l: int, palette: Seq<Seq<char>>, grid: Seq<u8>) -> Document {
    Document {
        name: Seq::empty(),
        root: seq![
            (
                "Schematic"@,
                Tree::Compound(
                    seq![
                        ("Version"@, Tree::Int(3)),
                        ("DataVersion"@, Tree::Int(4325)),
                        ("Width"@, Tree::Short(w as i16)),
                        ("Height"@, Tree::Short(h as i16)),
                        ("Length"@, Tree::Short(l as i16)),
                        (
                            "Blocks"@,
                            Tree::Compound(
                                seq![
                                    ("BlockEntities"@, Tree::List(Seq::empty())),
                                    ("Palette"@, Tree::Compound(palette_table(palette))),
                                    ("Data"@, Tree::ByteArray(grid)),
                                ],
                            ),
                        ),
                    ],
                ),
            ),
        ],
    }
}

/// The schematic tree of a map.
pub open spec fn schem_document(cells: Seq<Cell>) -> Document {
    schem_tree(
        width(cells),
        height(cells),
        length(cells),
        palette_of(blocks(cells)),
        schem_grid(cells),
    )
}

/// The byte grid has one byte for every cell of the bounding box. The byte of
/// the cell at the local position (x, y, z) stands at index
/// `x + width * (z + length * y)` and holds the code of the cell, which is 0
/// where the map stores nothing.
pub proof fn lemma_grid_of_cell(cells: Seq<Cell>, p: Pos)
    requires
        well_formed(cells),
        cells.len() > 0,
        palette_of(blocks(cells)).len() <= 256,
        inside(cells, p),
    ensures
        schem_grid(cells).len() == width(cells) * height(cells) * length(cells),
        ({
            let o = origin(cells);
            let i = (p.x - o.x) + width(cells) * ((p.z - o.z) + length(cells) * (p.y - o.y));
            &&& 0 <= i < schem_grid(cells).len()
            &&& schem_grid(cells)[i] == cell_code(cells, p)
            &&& !occupied(cells, p) ==> schem_grid(cells)[i] == 0
        }),
{
    lemma_extents_positive(cells);
    lemma_index_of_cell(cells, Layout::Schematic, p);
    lemma_cell_code_in_palette(cells, p);
    let i = index_in(cells, Layout::Schematic, p);
    assert(dense(cells, Layout::Schematic)[i] == cell_code(cells, p));
}

/// The byte grid holds the palette code of every entry of the map at the
/// index of its cell.
pub proof fn lemma_grid_of_entry(cells: Seq<Cell>, j: int)
    requires
        well_formed(cells),
        palette_of(blocks(cells)).len() <= 256,
        0 <= j < cells.len(),
    ensures
        ({
            let o = origin(cells);
            let p = cells[j].pos;
            let i = (p.x - o.x) + width(cells) * ((p.z - o.z) + length(cells) * (p.y - o.y));
            &&& 0 <= i < schem_grid(cells).len()
            &&& schem_grid(cells)[i] == code_of(palette_of(blocks(cells)), cells[j].block)
        }),
{
    lemma_cell_code_of_entry(cells, j);
    lemma_grid_of_cell(cells, cells[j].pos);
}

/// The codes as bytes.
fn narrow(codes: &Vec<usize>) -> (bytes: Vec<u8>)
    requires
        forall|i: int| 0 <= i < codes@.len() ==> #[trigger] codes@[i] <= 255,
    ensures
        bytes@ == as_ints(codes@).map_values(|code: int| code as u8),
{
    let mut bytes: Vec<u8> = Vec::with_capacity(codes.len());
    let mut i: usize = 0;
    while i < codes.len()
        invariant
            i <= codes@.len(),
            bytes@.len() == i,
            forall|k: int| 0 <= k < codes@.len() ==> #[trigger] codes@[k] <= 255,
            forall|k: int| 0 <= k < i ==> #[trigger] bytes@[k] == codes@[k] as int as u8,
        decreases codes@.len() - i,
    {
        bytes.push(codes[i] as u8);
        i += 1;
    }
    assert(bytes@ =~= as_ints(codes@).map_values(|code: int| code as u8));
    bytes
}

/// Extents, palette and byte grid of a map.
fn schem_parts(map: &VoxelMap) -> (parts: Result<(i32, i32, i32, Palette, Vec<u8>), ExportError>)
    requires
        box_fits(map@),
    ensures
        match parts {
            Ok((w, h, l, palette, grid)) => {
                &&& schem_refusal(map@) is None
                &&& w == width(map@)
                &&& h == height(map@)
                &&& l == length(map@)
                &&& palette@ == palette_of(blocks(map@))
                &&& grid@ == schem_grid(map@)
            },
            Err(e) => schem_refusal(map@) == Some(e),
        },
{
    let (b, w, h, l) = match measure(map) {
        Ok(measured) => measured,
        Err(e) => {
            return Err(e);
        },
    };
    let (palette, codes) = Palette::build_indexed(map);
    if palette.len() > 256 {
        return Err(ExportError::PaletteOverflow);
    }
    let listed = fill_codes(map, Layout::Schematic, &b, w, h, l, &codes);
    proof {
        assert forall|i: int| 0 <= i < listed@.len() implies #[trigger] listed@[i] <= 255 by {
            assert(as_ints(listed@)[i] == listed@[i]);
            assert(dense(map@, Layout::Schematic).len() == listed@.len());
            assert(dense(map@, Layout::Schematic)[i] == cell_code(
                map@,
                cell_at(map@, Layout::Schematic, i),
            ));
            lemma_cell_code_in_palette(map@, cell_at(map@, Layout::Schematic, i));
        }
    }
    let grid = narrow(&listed);
    Ok((w, h, l, palette, grid))
}

/// The byte grid of the schematic format, or the reason why the map has none.
pub fn dense_grid(map: &VoxelMap) -> (grid: Result<Vec<u8>, ExportError>)
    requires
        box_fits(map@),
    ensures
        match grid {
            Ok(bytes) => schem_refusal(map@) is None && bytes@ == schem_grid(map@),
            Err(e) => schem_refusal(map@) == Some(e),
        },
{
    match schem_parts(map) {
        Ok((_, _, _, _, grid)) => Ok(grid),
        Err(e) => Err(e),
    }
}

/// The field names of the schematic tree differ from each other: by their
/// lengths, and where those agree by their first letters.
proof fn lemma_field_names()
    ensures
        "BlockEntities"@.len() == 13,
        "Palette"@.len() == 7,
        "Data"@.len() == 4,
        "Version"@.len() == 7,
        "DataVersion"@.len() == 11,
        "Width"@.len() == 5,
        "Height"@.len() == 6 && "Height"@[0] == 'H',
        "Length"@.len() == 6 && "Length"@[0] == 'L',
        "Blocks"@.len() == 6 && "Blocks"@[0] == 'B',
{
    reveal_strlit("BlockEntities");
    reveal_strlit("Palette");
    reveal_strlit("Data");
    reveal_strlit("Version");
    reveal_strlit("DataVersion");
    reveal_strlit("Width");
    reveal_strlit("Height");
    reveal_strlit("Length");
    reveal_strlit("Blocks");
}

/// The schematic tree for the given extents, palette and byte grid. The
/// extents are stored as 16-bit integers; higher bits are cut off.
pub fn assemble_schem(w: i32, h: i32, l: i32, palette: &Palette, grid: Vec<u8>) -> (nbt: crab_nbt::Nbt)
    requires
        palette@.len() <= i32::MAX,
    ensures
        nbt_document(nbt) == schem_tree(w as int, h as int, l as int, palette@, grid@),
{
    proof {
        use_type_invariant(palette);
    }
    let ghost names = palette@;
    let ghost bytes = grid@;
    let mut table = compound_new();
    let n = palette.len();
    let mut i: usize = 0;
    assert(palette_table(names).take(0) =~= Seq::<(Seq<char>, Tree)>::empty());
    while i < n
        invariant
            i <= n,
            n == names.len(),
            names == palette@,
            n <= i32::MAX,
            valid_palette(names),
            compound_entries(table) == palette_table(names).take(i as int),
        decreases n - i,
    {
        let ghost before = compound_entries(table);
        let name = palette.name(i).clone();
        put_fresh(&mut table, name, tag_int(i as i32));
        proof {
            assert(palette_table(names).take(i + 1) =~= before.push(palette_table(names)[i as int]));
        }
        i += 1;
    }
    proof {
        assert(palette_table(names).take(n as int) =~= palette_table(names));
        lemma_field_names();
    }
    let none: Vec<crab_nbt::NbtTag> = Vec::new();
    assert(trees(none@) =~= Seq::<Tree>::empty());
    let mut inner_blocks = compound_new();
    put_fresh(&mut inner_blocks, "BlockEntities".to_owned(), tag_list(none));
    put_fresh(&mut inner_blocks, "Palette".to_owned(), tag_compound(table));
    put_fresh(&mut inner_blocks, "Data".to_owned(), tag_byte_array(grid));
    assert(compound_entries(inner_blocks) =~= seq![
        ("BlockEntities"@, Tree::List(Seq::empty())),
        ("Palette"@, Tree::Compound(palette_table(names))),
        ("Data"@, Tree::ByteArray(bytes)),
    ]);
    let mut inner = compound_new();
    put_fresh(&mut inner, "Version".to_owned(), tag_int(3));
    put_fresh(&mut inner, "DataVersion".to_owned(), tag_int(4325));
    put_fresh(&mut inner, "Width".to_owned(), tag_short(#[verifier::truncate] (w as i16)));
    put_fresh(&mut inner, "Height".to_owned(), tag_short(#[verifier::truncate] (h as i16)));
    put_fresh(&mut inner, "Length".to_owned(), tag_short(#[verifier::truncate] (l as i16)));
    put_fresh(&mut inner, "Blocks".to_owned(), tag_compound(inner_blocks));
    let mut root = compound_new();
    let ghost expected = schem_tree(w as int, h as int, l as int, names, bytes);
    assert(compound_entries(inner) =~= expected.root[0].1->Compound_0);
    put_fresh(&mut root, "Schematic".to_owned(), tag_compound(inner));
    assert(compound_entries(root) =~= expected.root);
    nbt_new(String::new(), root)
}

/// Encodes a map in the schematic format.
pub fn to_schem(map: &VoxelMap) -> (encoded: Result<crab_nbt::Nbt, ExportError>)
    requires
        box_fits(map@),
    ensures
        match encoded {
            Ok(nbt) => schem_refusal(map@) is None && nbt_document(nbt) == schem_document(map@),
            Err(e) => schem_refusal(map@) == Some(e),
        },
{
    match schem_parts(map) {
        Ok((w, h, l, palette, grid)) => Ok(assemble_schem(w, h, l, &palette, grid)),
        Err(e) => Err(e),
    }
}

} // verus!
