pub mod accounts;
pub mod amm;
pub mod error;
pub mod pubkey;
pub mod state;
pub mod utils;

pub use accounts::{AddToken, InitializeAmm, ProxySwapTransferToken};
pub use error::AmmError;
pub use pubkey::Pubkey;
pub use state::Amm;
