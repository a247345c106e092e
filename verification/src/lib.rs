//! Library core of the `/top` live Postgres monitor: the UI state machine,
//! the Activity view's ordering and cell text, calendar formatting, the
//! key-overlay font and the SQL it samples with.

pub mod args;
pub mod caldate;
pub mod decimal;
pub mod keyfont;
pub mod keys;
pub mod renderer;
pub mod sampler;
pub mod sql;
pub mod state;
pub mod text;
pub mod views;

pub use args::TopArgs;
