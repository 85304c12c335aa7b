//! Shortcuts to kubectl commands: find a pod from part of its name and build
//! the kubectl command lines that act on it.

pub mod text;
pub mod args;
pub mod kubectl;
pub mod middle;
pub mod pod;
pub mod ranking;
pub mod manager;
