use vstd::prelude::*;

use crate::text::{chars_of, contains, has_infix, same_text};

verus! {

/// The codec that an exported file is written with, and the level asked for.
#[derive(Copy, Clone, Debug, PartialEq, Eq, Structural)]
pub enum CompressionChoice {
    Lz4Raw,
    Uncompressed,
    Snappy,
    Gzip(Option<usize>),
    Lzo,
    Brotli(Option<usize>),
    Zstd(Option<usize>),
}

/// The codec that the name `compression` asks for; any other name gets zstd.
pub open spec fn compression_of(compression: Seq<char>, level: Option<usize>) -> CompressionChoice {
    if compression == "lz4"@ {
        CompressionChoice::Lz4Raw
    } else if compression == "uncompressed"@ {
        CompressionChoice::Uncompressed
    } else if compression == "snappy"@ {
        CompressionChoice::Snappy
    } else if compression == "gzip"@ {
        CompressionChoice::Gzip(level)
    } else if compression == "lzo"@ {
        CompressionChoice::Lzo
    } else if compression == "brotli"@ {
        CompressionChoice::Brotli(level)
    } else {
        CompressionChoice::Zstd(level)
    }
}

/// The codec for an exported file.
pub fn parquet_options(compression: &str, compression_level: Option<usize>) -> (r: CompressionChoice)
    ensures
        r == compression_of(compression@, compression_level),
{
    if same_text(compression, "lz4") {
        CompressionChoice::Lz4Raw
    } else if same_text(compression, "uncompressed") {
        CompressionChoice::Uncompressed
    } else if same_text(compression, "snappy") {
        CompressionChoice::Snappy
    } else if same_text(compression, "gzip") {
        CompressionChoice::Gzip(compression_level)
    } else if same_text(compression, "lzo") {
        CompressionChoice::Lzo
    } else if same_text(compression, "brotli") {
        CompressionChoice::Brotli(compression_level)
    } else {
        CompressionChoice::Zstd(compression_level)
    }
}

/// The compression level argument: `-1` asks for the codec's default.
pub fn compression_level_from(passed: i64) -> (r: Option<usize>)
    ensures
        passed < 0 ==> r is None,
        passed >= 0 && passed <= usize::MAX ==> r == Some(passed as usize),
        passed > usize::MAX ==> r is None,
{
    if passed < 0 || passed as u128 > usize::MAX as u128 {
        None
    } else {
        Some(passed as usize)
    }
}

/// A directory name of a hive-partitioned dataset: `key=value`.
pub fn is_hive_directory_name(name: &str) -> (r: bool)
    ensures
        r == contains(name@, "="@),
{
    let c = chars_of(name);
    has_infix(&c, "=")
}

/// What to do with what stands at the output path before an export.
#[derive(Copy, Clone, Debug, PartialEq, Eq, Structural)]
pub enum OverwriteAction {
    /// Write over nothing, or leave what stands.
    Keep,
    /// Remove the columnar file that stands there.
    RemoveFile,
    /// Remove the partitioned dataset that stands there.
    RemoveDirectory,
    /// Refuse: the directory there is not a partitioned dataset.
    Refuse,
}

/// What to do with the output path: only when overwriting is asked for, a
/// columnar file is removed, a partitioned dataset is removed, and another
/// directory stops the export.
pub fn overwrite_action(
    overwrite: bool,
    is_file: bool,
    is_columnar_file: bool,
    is_dir: bool,
    is_dataset: bool,
) -> (r: OverwriteAction)
    ensures
        r == (if !overwrite {
            OverwriteAction::Keep
        } else if is_file {
            if is_columnar_file {
                OverwriteAction::RemoveFile
            } else {
                OverwriteAction::Keep
            }
        } else if is_dir {
            if is_dataset {
                OverwriteAction::RemoveDirectory
            } else {
                OverwriteAction::Refuse
            }
        } else {
            OverwriteAction::Keep
        }),
{
    if !overwrite {
        OverwriteAction::Keep
    } else if is_file {
        if is_columnar_file {
            OverwriteAction::RemoveFile
        } else {
            OverwriteAction::Keep
        }
    } else if is_dir {
        if is_dataset {
            OverwriteAction::RemoveDirectory
        } else {
            OverwriteAction::Refuse
        }
    } else {
        OverwriteAction::Keep
    }
}

} // verus!
