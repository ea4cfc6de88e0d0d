//! Response bodies of the player service.
pub use crate::requests::IsValidPlayernameResponse;
