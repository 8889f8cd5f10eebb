//! A test-double library for HTTP interactions.
//!
//! Two components make up the library: [`body::Body`], an ordered collection
//! of binary chunks that can be streamed frame by frame or drained into one
//! buffer, and [`mock_set::MockSet`], a priority-ordered collection of mocks
//! that selects the best match for an incoming request while accounting for
//! per-mock usage limits.

pub mod body;
pub mod mock;
pub mod mock_set;
