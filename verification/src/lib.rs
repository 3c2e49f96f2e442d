pub mod conv;
pub mod gen;
pub mod reduce;

pub use conv::compute_dx;
pub use conv::compute_dy;
pub use gen::construct_randomized_matrix;
pub use reduce::get_max;
pub use reduce::get_min;
