//! Transforms applied to log items before they are logged.
pub mod copy;
