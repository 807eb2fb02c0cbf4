//! A compose/proxy reconciliation engine for locally running containerized
//! services.
//!
//! The library discovers compose files, decodes reverse-proxy intent from
//! their label sets, derives candidate backend ports, reconciles the declared
//! state with what the container engine reports live, and mutates a compose
//! document to add or update a route without touching anything it does not
//! understand. Every operation is specified over a mathematical view of the
//! document model and proved against that specification; all I/O — the
//! filesystem, the engine socket, the proxy's admin endpoint — stays with the
//! caller, which hands the engine plain values.

pub mod model;
pub mod strutil;
pub mod labels;
pub mod sorted;
pub mod parser;
pub mod writer;
pub mod discovery;
pub mod containers;
pub mod admin;
