//! Counter-Strike match listings: which matches are worth a mail.

pub mod api;

pub use api::CsgoApi;
pub use api::Info;
pub use api::Listing;
pub use api::Match;
pub use api::Team;
