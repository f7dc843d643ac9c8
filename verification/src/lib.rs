//! A persistent, text-based shared world: rooms, creatures, the rules that
//! guard what they do, and the engine that serves it to players.

pub mod api;
pub mod clock;
pub mod direction;
pub mod engine;
pub mod fabric;
pub mod id;
pub mod mcp;
pub mod mob;
pub mod presentation;
pub mod realm;
pub mod seed;
pub mod seqs;
pub mod session;
pub mod sorted_map;
pub mod sorted_set;
pub mod store;
pub mod telnet;
pub mod text;
pub mod world;

pub use clock::{Clock, ManualClock, SystemClock};
pub use direction::Direction;
pub use engine::{DigError, Engine};
pub use fabric::{
    coalesce, dispatch, Admission, Band, Dispatch, Effect, Event, Intent, IntentClass, Operator,
    Outcome, PresentationKind, RateLimiterState, Responder, Rule, Scope,
};
pub use id::{EntityId, IdError};
pub use mob::{Flag, Mob};
pub use presentation::{plain_text, PresentationNode, Role, Span};
pub use realm::Realm;
pub use session::{Session, SessionId};
pub use sorted_map::SortedMap;
pub use sorted_set::SortedSet;
pub use store::{CommitId, MemoryStore, StoreError, WorldStore};
pub use world::{Room, World};
