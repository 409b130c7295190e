pub mod clock;
pub mod error;
pub mod identity;
pub mod key_wrap;
pub mod master_safe;
pub mod secret;
pub mod testament;
pub mod user_vault;
