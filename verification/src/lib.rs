//! Geodukt: a declarative geospatial ETL pipeline library.
//!
//! Pipelines are described by a manifest of sources, transforms and sinks.
//! The library resolves them into a dependency graph, executes it in
//! topological order, and offers the surrounding tooling (lineage,
//! change detection, incremental state, documentation, SQL generation).
pub mod text;
pub mod manifest;
pub mod dag;
pub mod geometry;
pub mod feature;
pub mod pipeline;
pub mod docgen;
pub mod database;
pub mod lineage;
pub mod incremental;
pub mod cache;
pub mod template;
pub mod quality;
pub mod testing;
pub mod keyed;
pub mod order;
pub mod visual;
pub mod cdc;
pub mod diff;
pub mod schema;
pub mod scheduler;
pub mod transforms;
pub mod server;
pub mod streaming;
pub mod gpkg;
pub mod csv;
pub mod cloud;
pub mod scaffold;
