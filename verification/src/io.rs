//! Export of fields on meshes.

pub mod fields;
pub mod msh_file;
pub mod msh_sections;
pub mod polyline;
pub mod sampling;
pub mod sampling_law;
pub mod vtk;
pub mod vtu;
pub mod gmsh_text;
pub mod gmsh;
