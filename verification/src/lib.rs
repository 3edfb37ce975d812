pub mod github;
pub mod text;
pub mod util;
pub mod nukkit;
pub mod plugin;
pub mod sync;
pub mod cache;
pub mod search;
