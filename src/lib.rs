pub mod bigint;
pub mod dequeue;
pub mod detector;
pub mod errors;
pub mod laws;
pub mod mask;

pub use bigint::Bigint;
pub use dequeue::Dequeue;
pub use detector::{Checker, DetectorConfig, NoWrapReplayDetector};
pub use errors::ReplayError;
pub use mask::Mask;
