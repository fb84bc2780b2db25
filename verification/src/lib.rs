//! A local permission arbitration gateway: stored allow/deny rules in the
//! form `Tool(pattern)` are matched against concrete tool requests; requests
//! that no rule decides are parked in a pending registry until an external
//! decision resolves them.

pub mod arbiter;
pub mod hook;
pub mod matcher;
pub mod pattern;
pub mod registry;
pub mod storage;
pub mod text;

pub use arbiter::ArbitrationOutcome;
pub use arbiter::PermissionDecision;
pub use arbiter::PermissionRequest;
pub use arbiter::RuleVerdict;
pub use matcher::match_pattern;
pub use registry::PendingRegistry;
pub use storage::PermissionRules;
pub use storage::PermissionSettings;
pub use storage::PermissionStorage;
