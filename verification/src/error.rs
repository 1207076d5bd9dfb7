//! The ways in which an export can fail.

use vstd::prelude::*;

verus! {

/// Why an export was refused or could not be completed.
#[derive(Clone, Copy, Debug, PartialEq, Eq, Structural)]
pub enum ExportError {
    /// The voxel map has no entries, so it has no bounding box.
    EmptyInput,
    /// The mode token names neither of the two formats.
    UnknownMode,
    /// The schematic format stores one byte per cell and the palette needs
    /// a code above 255.
    PaletteOverflow,
    /// Producing or writing the output stream failed.
    IoFailure,
    /// The output path has no file-name component to embed in the stream.
    MalformedOutputPath,
}

impl ExportError {
    /// A short description of the failure, for messages shown to a person.
    pub fn message(&self) -> (text: String)
        ensures
            text@ == match *self {
                ExportError::EmptyInput => "the voxel map is empty"@,
                ExportError::UnknownMode => "unknown export mode"@,
                ExportError::PaletteOverflow => "the palette does not fit in one byte per cell"@,
                ExportError::IoFailure => "the output could not be written"@,
                ExportError::MalformedOutputPath => "the output path has no file name"@,
            },
    {
        match self {
            ExportError::EmptyInput => "the voxel map is empty".to_owned(),
            ExportError::UnknownMode => "unknown export mode".to_owned(),
            ExportError::PaletteOverflow => "the palette does not fit in one byte per cell".to_owned(),
            ExportError::IoFailure => "the output could not be written".to_owned(),
            ExportError::MalformedOutputPath => "the output path has no file name".to_owned(),
        }
    }
}

} // verus!
