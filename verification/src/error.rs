//! The errors of the library.

use vstd::prelude::*;

verus! {

/// Why a point cloud could not be built, read or merged.
#[derive(Debug)]
pub enum CloudError {
    /// The first field is not named `x`.
    FirstFieldNotX,
    /// The second field is not named `y`.
    SecondFieldNotY,
    /// The third field is not named `z`.
    ThirdFieldNotZ,
    /// `width * height` differs from the number of points.
    SizeMismatch { width: usize, height: usize, len: usize },
    /// The height of a point cloud is zero.
    ZeroHeight,
    /// There is no point cloud to merge.
    NoPointClouds,
    /// The point clouds to merge already have a `filename` field.
    FilenameFieldExists,
    /// The extension of a file names no supported format.
    UnsupportedFormat(String),
    /// The CSV reader failed.
    Csv(csv::Error),
    /// The PCD reader failed.
    Pcd(pcd_rs::Error),
    /// The records of a PCD file cannot be read: the file declares points and
    /// one record is larger than an `isize` can count, or compressed data
    /// declares sizes that do not fit in an `isize`, or an uncompressed size
    /// too small for the points it declares.
    PcdUnreadable,
    /// The PLY reader failed.
    Ply(ply_rs_bw::parser::ParseError),
    /// A PLY file holds no `vertex` element.
    NoVertexElement,
    /// The `vertex` element of a PLY file holds no point.
    NoPoints,
}

} // verus!
