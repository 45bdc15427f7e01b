//! Piecewise membership functions.

pub mod linear_function;
pub mod piecewise_linear_function;

pub use linear_function::LinearFunction;
pub use piecewise_linear_function::PiecewiseLinearFunction;
pub use piecewise_linear_function::PiecewiseLinearFunctionError;
