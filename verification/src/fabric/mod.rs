//! The event fabric: Intent -> Guard -> Commit -> Notify.

pub mod coalesce;
pub mod dispatch;
pub mod gather;
pub mod handler;
pub mod intent;
pub mod laws;
pub mod operator;
pub mod predicate;
pub mod rate_limit;
pub mod resolve;
pub mod trigger;

pub use coalesce::coalesce;
pub use dispatch::{dispatch, Dispatch};
pub use gather::{gather, Candidate};
pub use handler::{Band, Effect, Outcome, Responder, Rule};
pub use intent::{Event, Intent};
pub use operator::{IntentClass, Operator, PresentationKind, Scope};
pub use predicate::{eval as eval_predicate, Party, Predicate};
pub use rate_limit::{Admission, RateLimiterState};
pub use resolve::{resolve, salient, Decision};
pub use trigger::Trigger;
