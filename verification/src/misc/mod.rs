//! Reading commands and configuration.

pub mod command;
pub mod lnx_config;
pub mod ordered;
pub mod text;
