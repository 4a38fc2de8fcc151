pub mod batch;
pub mod fold;
pub mod matrix;

pub use batch::MatrixCol;
pub use matrix::Error;
pub use matrix::Matrix;
