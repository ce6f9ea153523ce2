//! Navigation-and-bid synchronization core for a tree of territories on a
//! fractal plane: a client-side mirror of the visible slice of the ownership
//! tree, the breadcrumb path, the pending bids of the current territory, and
//! the decisions that reconcile them with an asynchronous remote ledger.
pub mod controller;
pub mod keyed;
pub mod model;
pub mod navigation;
pub mod store;
