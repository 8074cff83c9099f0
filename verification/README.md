# geodukt

A declarative geospatial ETL pipeline: a TOML manifest names sources, transforms
and sinks; the pipeline orders them by their inputs and runs them.

- `src/` is the library, written in Verus with its contracts proved: the
  manifest model, the dependency graph and its execution order (petgraph), the
  pipeline runner and its parallel scheduler, change detection, manifest diffs,
  schema detection, the visual node graph and its round trip, templates,
  lineage, incremental hashing (sha2), the result cache keys, pipeline tests
  and quality rules, SQL text for PostGIS and GeoPackage, CSV layout and field
  parsing, documentation output and the run log of the HTTP server.
- `app/` is the command-line program around it: file, database, cloud and
  network I/O, the HTTP server, plugins, and the geometric transforms that
  compute on floating-point coordinates.
- `tests/` exercises the library through its public interface.
