//! Output for terminal tables, exports, and the live view.
//!
//! Output policy, such as MAC masking, is applied here rather than in the scan model.
//! Cache, history, and identity rules work on raw evidence; identifiers are redacted
//! where data leaves the process.
pub mod export;
pub mod letters;
pub mod live;
pub mod privacy;
pub mod rows;
pub mod sources;
