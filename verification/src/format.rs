//! The file formats a point cloud is read from.

use vstd::prelude::*;

use crate::error::CloudError;

verus! {

/// The file formats a point cloud can be read from.
#[derive(Clone, Copy, Debug, PartialEq, Eq, Structural)]
pub enum CloudFormat {
    /// The Point Cloud Library format.
    Pcd,
    /// The Polygon File Format.
    Ply,
    /// Comma-separated values, with a header row.
    Csv,
}

/// The format that a file extension names, if any.
pub open spec fn format_of(extension: Seq<char>) -> Option<CloudFormat> {
    if extension == seq!['p', 'c', 'd'] {
        Some(CloudFormat::Pcd)
    } else if extension == seq!['p', 'l', 'y'] {
        Some(CloudFormat::Ply)
    } else if extension == seq!['c', 's', 'v'] {
        Some(CloudFormat::Csv)
    } else {
        None
    }
}

impl CloudFormat {
    /// The format of a file with extension `extension` (`pcd`, `ply` or
    /// `csv`); any other extension is refused.
    pub fn from_extension(extension: &str) -> (res: Result<CloudFormat, CloudError>)
        ensures
            match format_of(extension@) {
                Some(f) => res matches Ok(g) && g == f,
                None => res matches Err(CloudError::UnsupportedFormat(e)) && e@ == extension@,
            },
    {
        proof {
            reveal_strlit("pcd");
            reveal_strlit("ply");
            reveal_strlit("csv");
            assert("pcd"@ =~= seq!['p', 'c', 'd']);
            assert("ply"@ =~= seq!['p', 'l', 'y']);
            assert("csv"@ =~= seq!['c', 's', 'v']);
        }
        let ext = String::from_str(extension);
        if ext == String::from_str("pcd") {
            Ok(CloudFormat::Pcd)
        } else if ext == String::from_str("ply") {
            Ok(CloudFormat::Ply)
        } else if ext == String::from_str("csv") {
            Ok(CloudFormat::Csv)
        } else {
            Err(CloudError::UnsupportedFormat(ext))
        }
    }
}

} // verus!
