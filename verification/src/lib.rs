//! Perimeter toolpaths for layered fabrication: contours are rebuilt from the
//! plane edges of a triangle mesh and turned into ordered printer moves.
//!
//! Coordinates are carried as IEEE 754 bit patterns, so every decision the
//! library takes is a decision about integers.
//!
//! - [`tolerance`] decides which heights lie on the cutting plane.
//! - [`mesh`] holds the mesh of one slice and collects its plane edges.
//! - [`edge_table`] is the adjacency table that the edges are chained from.
//! - [`contour`] chains the edges into paths; [`contour_proofs`] states what
//!   holds of the result.
//! - [`path`] holds extrusion paths and lays out the moves that draw them.
//! - [`binary64`] orders double-precision values; [`config`] checks the
//!   settings of a job with it.
//! - [`slicer`] runs a job: it says what is to be done next and collects the
//!   paths in printing order.

pub mod binary64;
pub mod config;
pub mod contour;
pub mod contour_proofs;
pub mod edge_table;
pub mod mesh;
pub mod path;
pub mod slicer;
pub mod tolerance;
