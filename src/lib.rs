//! A small neural-network training library over fixed-point numbers:
//! dense and convolutional layers, mean squared error, and networks
//! trained by per-sample stochastic gradient descent.
pub mod conv;
pub mod dense;
pub mod fixed;
pub mod grid;
pub mod loss;
pub mod network;
mod random;
