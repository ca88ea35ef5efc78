//! Routing and request checks of the dashboard's HTTP endpoints.
//!
//! The handlers themselves read and write the project's stores; what is kept
//! here is what they decide from the request alone: which endpoint a path and
//! method reach, and which requests are refused before any store is touched.

pub mod context;
pub mod roi;
