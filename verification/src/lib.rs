pub mod chan;
pub mod directory;
pub mod errors;
pub mod formats;
pub mod inner;
pub mod laws;
pub mod opener;
pub mod runtime;
pub mod tracker;
