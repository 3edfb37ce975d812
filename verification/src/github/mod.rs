pub mod api;
pub mod auth;
pub mod types;
pub mod urlencode;
