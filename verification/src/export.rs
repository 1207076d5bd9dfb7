//! Exporting a map: choosing the format, rendering the tree and framing the
//! bytes.

use vstd::prelude::*;

use crate::error::ExportError;
use crate::gzip::{
    crc32_of, gzip_frame, gzip_of, le32_value, lemma_payload_footer, name_bytes,
};
use crate::nbt::{nbt_document, nbt_encoding, nbt_write, Document};
use crate::schem::{schem_document, schem_refusal, to_schem};
use crate::structure::{structure_document, structure_refusal, to_structure};
use crate::voxel::{
    block_at, box_fits, lemma_entries_determined, well_formed, Cell, Pos, VoxelMap,
};

verus! {

/// The mode token of the schematic format.
pub open spec fn schem_mode() -> Seq<char> {
    "schem"@
}

/// The mode token of the structure format.
pub open spec fn structure_mode() -> Seq<char> {
    "structure"@
}

/// Why a map cannot be encoded in the given mode, if it cannot. An unknown
/// mode is reported before anything is said of the map.
pub open spec fn encode_refusal(cells: Seq<Cell>, mode: Seq<char>) -> Option<ExportError> {
    if mode == schem_mode() {
        schem_refusal(cells)
    } else if mode == structure_mode() {
        structure_refusal(cells)
    } else {
        Some(ExportError::UnknownMode)
    }
}

/// The tree of a map in the given mode.
pub open spec fn document_of(cells: Seq<Cell>, mode: Seq<char>) -> Document {
    if mode == schem_mode() {
        schem_document(cells)
    } else {
        structure_document(cells)
    }
}

/// Why an export is refused, if it is: for the reasons that stop the
/// encoding, and for a path without a file name.
pub open spec fn export_refusal(cells: Seq<Cell>, mode: Seq<char>, file_name: Option<Seq<char>>) -> Option<
    ExportError,
> {
    if encode_refusal(cells, mode) is Some {
        encode_refusal(cells, mode)
    } else if file_name is None {
        Some(ExportError::MalformedOutputPath)
    } else {
        None
    }
}

/// The bytes of the file that an export writes, or `None` where the rendered
/// tree cannot be compressed.
pub open spec fn export_stream(cells: Seq<Cell>, mode: Seq<char>, file_name: Seq<char>, mtime: u32) -> Option<
    Seq<u8>,
> {
    gzip_of(name_bytes(file_name), mtime, nbt_encoding(document_of(cells, mode)))
}

/// An export is determined by the blocks that the map holds, the mode, the
/// file name and the time stamp: for two maps that hold the same block, or
/// none, at every position, the same is refused and the same bytes are
/// written.
pub proof fn lemma_export_determined(
    a: Seq<Cell>,
    b: Seq<Cell>,
    mode: Seq<char>,
    file_name: Option<Seq<char>>,
    mtime: u32,
)
    requires
        well_formed(a),
        well_formed(b),
        forall|p: Pos| block_at(a, p) == block_at(b, p),
    ensures
        export_refusal(a, mode, file_name) == export_refusal(b, mode, file_name),
        file_name matches Some(name) ==> export_stream(a, mode, name, mtime) == export_stream(
            b,
            mode,
            name,
            mtime,
        ),
{
    lemma_entries_determined(a, b);
}

/// The last eight bytes of an exported file hold the checksum of the rendered
/// tree and its length modulo 2^32, each lowest byte first.
pub proof fn lemma_export_footer(cells: Seq<Cell>, mode: Seq<char>, file_name: Seq<char>, mtime: u32)
    ensures
        export_stream(cells, mode, file_name, mtime) matches Some(stream) ==> {
            let payload = nbt_encoding(document_of(cells, mode));
            let n = stream.len() as int;
            &&& n >= 19
            &&& le32_value(stream.subrange(n - 8, n - 4)) == crc32_of(payload)
            &&& le32_value(stream.subrange(n - 4, n)) == payload.len() % 0x1_0000_0000
            &&& payload.len() < 0x1_0000_0000 ==> le32_value(stream.subrange(n - 4, n))
                == payload.len()
        },
{
    lemma_payload_footer(name_bytes(file_name), mtime, nbt_encoding(document_of(cells, mode)));
}

/// An unknown mode is refused as such, whatever the map and the path.
pub proof fn lemma_unknown_mode_refused(cells: Seq<Cell>, mode: Seq<char>, file_name: Option<Seq<char>>)
    requires
        mode != schem_mode(),
        mode != structure_mode(),
    ensures
        export_refusal(cells, mode, file_name) == Some(ExportError::UnknownMode),
{
}

/// An empty map is refused as such in both formats, whatever the path.
pub proof fn lemma_empty_map_refused(cells: Seq<Cell>, mode: Seq<char>, file_name: Option<Seq<char>>)
    requires
        cells.len() == 0,
        mode == schem_mode() || mode == structure_mode(),
    ensures
        export_refusal(cells, mode, file_name) == Some(ExportError::EmptyInput),
{
}

/// The two mode tokens differ.
proof fn lemma_modes_differ()
    ensures
        schem_mode() != structure_mode(),
{
    reveal_strlit("schem");
    reveal_strlit("structure");
    assert(schem_mode().len() == 5);
    assert(structure_mode().len() == 9);
}

/// Whether two strings are equal.
fn same_text(a: &str, b: &str) -> (same: bool)
    ensures
        same == (a@ == b@),
{
    a.to_owned() == b.to_owned()
}

/// Encodes a map in the format that `mode` names: `"schem"` or
/// `"structure"`.
pub fn encode(map: &VoxelMap, mode: &str) -> (encoded: Result<crab_nbt::Nbt, ExportError>)
    requires
        box_fits(map@),
    ensures
        match encoded {
            Ok(nbt) => encode_refusal(map@, mode@) is None && nbt_document(nbt) == document_of(
                map@,
                mode@,
            ),
            Err(e) => encode_refusal(map@, mode@) == Some(e),
        },
{
    proof {
        lemma_modes_differ();
    }
    if same_text(mode, "schem") {
        to_schem(map)
    } else if same_text(mode, "structure") {
        to_structure(map)
    } else {
        Err(ExportError::UnknownMode)
    }
}

/// The bytes of the gzip file for a tree: the tree rendered by `crab_nbt` and
/// framed under the given file name and time stamp. `file_name` is the
/// file-name component of the output path; where the path has none, the
/// stream is refused with `MalformedOutputPath`. Fails with `IoFailure`
/// where, and only where, the rendered tree cannot be compressed.
pub fn nbt_stream(nbt: &crab_nbt::Nbt, file_name: Option<&str>, mtime: u32) -> (stream: Result<
    Vec<u8>,
    ExportError,
>)
    ensures
        match stream {
            Ok(out) => file_name matches Some(name) && gzip_of(
                name_bytes(name@),
                mtime,
                nbt_encoding(nbt_document(*nbt)),
            ) == Some(out@),
            Err(e) => match file_name {
                None => e == ExportError::MalformedOutputPath,
                Some(name) => e == ExportError::IoFailure && gzip_of(
                    name_bytes(name@),
                    mtime,
                    nbt_encoding(nbt_document(*nbt)),
                ) is None,
            },
        },
{
    if file_name.is_none() {
        return Err(ExportError::MalformedOutputPath);
    }
    let payload = nbt_write(nbt);
    gzip_frame(file_name, mtime, payload.as_slice())
}

/// The bytes of the file that an export of `map` writes, or the reason why
/// nothing is to be written. `file_name` is the file-name component of the
/// output path, `None` where the path has none. Where nothing is refused,
/// the export succeeds unless the rendered tree cannot be compressed, which
/// is reported as `IoFailure`.
pub fn export_bytes(map: &VoxelMap, mode: &str, file_name: Option<&str>, mtime: u32) -> (exported:
    Result<Vec<u8>, ExportError>)
    requires
        box_fits(map@),
    ensures
        match exported {
            Ok(out) => {
                &&& file_name matches Some(name)
                &&& export_refusal(map@, mode@, Some(name@)) is None
                &&& export_stream(map@, mode@, name@, mtime) == Some(out@)
            },
            Err(e) => match file_name {
                None => export_refusal(map@, mode@, None) == Some(e),
                Some(name) => if export_refusal(map@, mode@, Some(name@)) is Some {
                    export_refusal(map@, mode@, Some(name@)) == Some(e)
                } else {
                    e == ExportError::IoFailure && export_stream(map@, mode@, name@, mtime) is None
                },
            },
        },
{
    match encode(map, mode) {
        Ok(nbt) => nbt_stream(&nbt, file_name, mtime),
        Err(e) => Err(e),
    }
}

} // verus!
