//! Chronicle: the verified core of a novel-writing tool.

pub mod text;
pub mod markdown;
pub mod model;
pub mod editor;
pub mod dialog;
pub mod session;
pub mod export;
pub mod import;
