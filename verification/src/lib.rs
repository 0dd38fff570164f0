pub mod app_error;
pub mod cooked;
pub mod geometry;
pub mod mesh;
pub mod model;
pub mod parse;
pub mod raw;
pub mod tokens;
pub mod walk;

pub use app_error::AppError;
pub use cooked::CycleError;
pub use geometry::{Transform, Vec3Bits};
pub use mesh::Mesh;
pub use model::{Model, ModelConfig};
pub use parse::{
    parse_body, parse_disk_info, parse_disks, parse_model, Disk, DiskVertex,
};
pub use cooked::body_from_raw;
pub use tokens::{parse_lines, LineItem};
pub use walk::{build_mesh, walk_body, DefaultCrossSection};
