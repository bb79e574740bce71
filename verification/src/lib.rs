//! Declarative DNS for a cluster: zone hierarchy resolution, delegation
//! policy and zone file rendering, with every rule stated as a contract.

pub mod action;
pub mod decimal;
pub mod defaults;
pub mod hash;
pub mod keys;
pub mod meta;
pub mod order;
pub mod pattern;
pub mod record;
pub mod render;
pub mod renderer;
pub mod resolver;
pub mod retention;
pub mod serial;
pub mod text;
pub mod zone;
pub mod zonefile;
