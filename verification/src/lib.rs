//! Machine-written descriptions for media assets: choosing one of several
//! interchangeable inference hosts, judging each reply, and planning the
//! statements that record a description exactly once per asset.

pub mod asset;
pub mod config;
pub mod database;
pub mod dispatch;
pub mod error;
pub mod hosts;
pub mod json;
pub mod progress;
pub mod request;
pub mod response;
pub mod text;
