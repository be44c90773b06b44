//! Verified core of a first-person point cloud viewer: the point cloud
//! model, its validation and merging, the reading of PCD, PLY and CSV files
//! and the layout of their fields, and the decisions taken by the controls
//! of the viewer.
//!
//! Values and colours of points are type parameters: the viewer uses `f32`
//! values and its renderer's colours, which this library only moves around.

pub mod controls;
pub mod csv_table;
pub mod error;
pub mod format;
pub mod layout;
pub mod names;
pub mod pcd_table;
pub mod ply_table;
pub mod pointcloud;

pub use error::CloudError;
pub use pointcloud::{Point, PointCloud};
