//! Text and layout rules of the terminal views that do not depend on the
//! drawing library.
pub mod scroll;
pub mod sparkline_cell;
pub mod topology_view;
