//! Decision and rendering core of the narsil code-intelligence server.

pub mod args;
pub mod backends;
pub mod batch;
pub mod budget;
pub mod cache;
pub mod callgraph;
pub mod callpass;
pub mod calltools;
pub mod changes;
pub mod definitions;
pub mod delta;
pub mod engine;
pub mod expose;
pub mod freshness;
pub mod graphs;
pub mod history;
pub mod ignored;
pub mod imports;
pub mod indexing;
pub mod kept;
pub mod languages;
pub mod launch;
pub mod laws;
pub mod leases;
pub mod lookup;
pub mod lsp;
pub mod manifest;
pub mod mcp;
pub mod order;
pub mod paths;
pub mod plan;
pub mod position;
pub mod pullin;
pub mod ranked;
pub mod references;
pub mod registry;
pub mod reports;
pub mod retag;
pub mod run;
pub mod scope;
pub mod search;
pub mod settings;
pub mod show;
pub mod status;
pub mod store;
pub mod symbols;
pub mod text;
pub mod tools;
pub mod tree;
pub mod usages;
pub mod watch;
