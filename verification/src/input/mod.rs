//! Input adapters: how device data enters the engine.

pub mod mqtt;
