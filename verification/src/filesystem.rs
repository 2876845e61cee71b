//! The choice of file format for reading and writing points.
use vstd::prelude::*;
use vstd::string::*;

use crate::text::str_equals;

verus! {

/// Enum for supported file formats
#[derive(Copy, Clone, Debug, PartialEq, Eq, Structural)]
pub enum SupportedFileFormat {
    CSV,
    PLY,
}

/// The format chosen for a file extension: `csv` and `ply` name their
/// format, anything else (or no extension) falls back to CSV.
pub open spec fn format_of_extension(extension: Option<Seq<char>>) -> SupportedFileFormat {
    match extension {
        Some(ext) => if ext == "ply"@ {
            SupportedFileFormat::PLY
        } else {
            SupportedFileFormat::CSV
        },
        None => SupportedFileFormat::CSV,
    }
}

/// The notice printed when the extension does not name a format.
pub open spec fn extension_notice(extension: Option<Seq<char>>) -> Option<Seq<char>> {
    match extension {
        Some(ext) => if ext == "csv"@ || ext == "ply"@ {
            None
        } else {
            Some("Unsupported file format `"@ + ext + "` passed, writing to file as CSV"@)
        },
        None => Some("No file format passed, writing to file as CSV"@),
    }
}

/// `ply` selects the PLY format and every other extension, or none, CSV; a
/// notice is given exactly when the extension is neither `csv` nor `ply`.
pub proof fn extension_decides_format(ext: Seq<char>)
    ensures
        format_of_extension(Some("ply"@)) == SupportedFileFormat::PLY,
        format_of_extension(Some("csv"@)) == SupportedFileFormat::CSV,
        ext != "ply"@ ==> format_of_extension(Some(ext)) == SupportedFileFormat::CSV,
        format_of_extension(None) == SupportedFileFormat::CSV,
        extension_notice(Some(ext)) is None <==> (ext == "csv"@ || ext == "ply"@),
        extension_notice(None) is Some,
{
    reveal_strlit("csv");
    reveal_strlit("ply");
    assert("csv"@[0] != "ply"@[0]);
}

/// Decide on the file format from the extension of a file path, defaulting
/// to CSV; also gives the notice to show when the default was used.
pub fn get_file_extension(extension: Option<&str>) -> (res: (SupportedFileFormat, Option<String>))
    ensures
        res.0 == format_of_extension(
            match extension {
                Some(e) => Some(e@),
                None => None,
            },
        ),
        match res.1 {
            Some(msg) => extension_notice(
                match extension {
                    Some(e) => Some(e@),
                    None => None,
                },
            ) == Some(msg@),
            None => extension_notice(
                match extension {
                    Some(e) => Some(e@),
                    None => None,
                },
            ) is None,
        },
{
    proof {
        reveal_strlit("csv");
        reveal_strlit("ply");
    }
    match extension {
        Some(v) => {
            if str_equals(v, "csv") {
                assert("csv"@[0] != "ply"@[0]);
                (SupportedFileFormat::CSV, None)
            } else if str_equals(v, "ply") {
                (SupportedFileFormat::PLY, None)
            } else {
                let mut msg = String::from_str("Unsupported file format `");
                msg.append(v);
                msg.append("` passed, writing to file as CSV");
                (SupportedFileFormat::CSV, Some(msg))
            }
        },
        None => (
            SupportedFileFormat::CSV,
            Some(String::from_str("No file format passed, writing to file as CSV")),
        ),
    }
}

} // verus!
