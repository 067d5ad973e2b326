//! Per-layer reordering of a 3D-printer toolpath.
//!
//! The library parses a motion-command stream into per-layer travel graphs,
//! encodes each layer as a Euclidean travelling-salesman instance with fixed
//! mandatory edges, and reconstructs a motion program from a solver's tour.
//! All coordinates are fixed-point integers in thousandths of a unit.

use vstd::prelude::*;

mod config;
mod encoder;
mod gcode;
mod math;
mod text;
mod tour;

pub use config::Config;
pub use encoder::{
    EncodedProblem, MergeMap, encode_layer, lemma_encode_all_travel, lemma_encode_ok,
    lemma_encode_runs, lemma_encode_single_run, lemma_tour_closure, write_parameters_file,
    write_tsp_file,
};
pub use gcode::{
    CoordinatesMode, GCode, GCodeLayer, GCodeStats, ParseError, UnitsMode, Warning, WarningKind,
    get_position, get_units_text,
};
pub use math::{Point, distance_3d, distance_to_origin};
pub use text::{elapsed_time, parse_fixed, parse_int, write_line};
pub use tour::{
    Optimizer, TourError, csv_text, lemma_add_line_one_command, lemma_apply_pairs_commands, lemma_direct_destinations,
    lemma_expansion_counts, lemma_run_extrusion_preserved, lemma_tour_extrusion_preserved,
    parse_tour,
};

verus! {

} // verus!
