//! A minimal request server core: a byte-prefix route matcher and the
//! scheduling state of a fixed-size worker pool.

pub mod handler;
pub mod pool;
pub mod route;
pub mod text;
pub mod worker;

pub use handler::get_routes;
pub use handler::Resolution;
pub use pool::ThreadPool;
pub use route::Route;
pub use route::Routes;
pub use route::RoutesProperties;
pub use worker::Action;
pub use worker::JobOutcome;
pub use worker::Message;
pub use worker::Worker;
pub use worker::WorkerState;
