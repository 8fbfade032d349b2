//! Runtime registry and admission rules of a workstation supervisor.

pub mod text;
pub mod ids;
pub mod json;
pub mod path;
pub mod config;
pub mod depend;
pub mod validate;
pub mod model;
pub mod attribution;
pub mod platform;
pub mod roster;
pub mod sight;
pub mod show;
pub mod denial;
pub mod fleet;
pub mod engine;
pub mod views;
pub mod gate;
pub mod action;
pub mod stop;
pub mod start;
pub mod fresh;
pub mod assess;
pub mod request;
pub mod call;
pub mod protocol;
pub mod http;
