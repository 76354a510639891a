//! What the tool does to a device.

pub mod laws;
pub mod wipe;

pub use wipe::consent_asked;
pub use wipe::declined;
pub use wipe::first_difference;
pub use wipe::Consent;
pub use wipe::Notice;
pub use wipe::TracedSession;
pub use wipe::Verify;
pub use wipe::WipeError;
pub use wipe::WipeEvent;
pub use wipe::WipeOutcome;
pub use wipe::WipeSession;
pub use wipe::WipeState;
pub use wipe::WipeTask;
