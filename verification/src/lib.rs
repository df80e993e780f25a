pub mod builder;
pub mod clock;
pub mod config;
pub mod directory;
pub mod discover;
pub mod error;
pub mod instance;
pub mod provider;
pub mod selector;
pub mod strmap;
pub mod text;
pub mod traits;
