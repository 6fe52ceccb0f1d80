//! Escape-time evaluation of the Mandelbrot recurrence over a rectangular
//! region of the complex plane, producing a grid of iteration counts and a
//! character row for each grid row.
//!
//! All plane coordinates are exact fixed-point numbers: an `i64` counts units
//! of `1 / SCALE`, so every arithmetic step of the orbit is a verified integer
//! computation.

pub mod scaled;
pub mod escape;
pub mod field;
pub mod render;

pub use scaled::BOUND_MAX;
pub use scaled::POINT_MAX;
pub use scaled::SCALE;
pub use escape::ComplexPoint;
pub use escape::escape_count;
pub use field::PlaneRegion;
pub use field::point_at;
pub use field::sample_field;
pub use render::render_row;
pub use render::symbol_for;
