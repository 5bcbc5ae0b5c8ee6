//! A toy payments engine.
//!
//! A CSV transaction log is read record by record ([`pipeline`]) into one or more [`Engine`]s,
//! each keeping one [`Account`] per client. [`output`] renders the balances.
//!
//! There are two ways to drive it. [`pipeline::run`] applies every record to a single
//! engine in input order. The stages in [`parallel`] route records to a fan of engines by
//! client, which is sound because no transaction can reach across clients.
//!
//! What each operation does is stated in its contract. What holds of the library as a whole
//! is stated in [`account_laws`], [`engine_laws`], [`sharding_laws`] and [`parallel_laws`], and
//! what the single calls are for in [`call_laws`] and [`stage_laws`].

pub mod account;
pub mod account_laws;
pub mod amount;
pub mod call_laws;
pub mod cli;
pub mod decimal;
pub mod digits;
pub mod dispatch;
pub mod engine;
pub mod engine_laws;
pub mod error;
pub mod output;
pub mod parallel;
pub mod parallel_laws;
pub mod pipeline;
pub mod record;
pub mod route;
pub mod sharding_laws;
pub mod stage_laws;

pub use account::{Account, AccountRow};
pub use amount::Amount;
pub use engine::Engine;
pub use error::{FatalError, RecordError};
pub use record::Transaction;
pub use route::Router;
