//! Database connectors: connection strings, query and DDL generation.
use vstd::prelude::*;
use crate::feature::{FeatureCollection, Value};
use crate::geometry::{geometry_pg_type, spec_geometry_pg_type};
use crate::pipeline::PipelineError;
use crate::text::{
    append_decimal, bool_text, decimal, has_prefix, has_substring, has_word, join, lowercase, trimmed,
};

verus! {

/// Database backend type.
#[derive(Debug, Clone, Copy, PartialEq, Eq, Structural)]
pub enum DatabaseBackend {
    PostGIS,
    SqlServer,
    Oracle,
}

/// Database connection configuration.
#[derive(Debug)]
pub struct DatabaseConfig {
    pub backend: DatabaseBackend,
    pub host: String,
    pub port: u16,
    pub database: String,
    pub username: String,
    pub password: String,
    pub schema: Option<String>,
    pub ssl: bool,
}

/// The connection string of a configuration, in the backend's own syntax.
pub open spec fn spec_connection_string(c: DatabaseConfig) -> Seq<char> {
    let schema = match c.schema {
        Some(s) => s@,
        None => "public"@,
    };
    let ssl_mode = if c.ssl {
        "require"@
    } else {
        "disable"@
    };
    match c.backend {
        DatabaseBackend::PostGIS => "host="@ + c.host@ + " port="@ + decimal(c.port as nat)
            + " dbname="@ + c.database@ + " user="@ + c.username@ + " password="@ + c.password@
            + " sslmode="@ + ssl_mode + " options=-csearch_path="@ + schema,
        DatabaseBackend::SqlServer => "Server="@ + c.host@ + ","@ + decimal(c.port as nat)
            + ";Database="@ + c.database@ + ";User Id="@ + c.username@ + ";Password="@
            + c.password@ + ";Encrypt="@ + bool_text(c.ssl) + ";"@,
        DatabaseBackend::Oracle => "//"@ + c.host@ + ":"@ + decimal(c.port as nat) + "/"@
            + c.database@,
    }
}

impl DatabaseConfig {
    /// Builds a connection string appropriate for the backend
    /// (see `spec_connection_string`).
    pub fn connection_string(&self) -> (r: String)
        ensures
            r@ == spec_connection_string(*self),
    {
        let mut s = String::new();
        match self.backend {
            DatabaseBackend::PostGIS => {
                let schema: &str = match &self.schema {
                    Some(v) => v.as_str(),
                    None => "public",
                };
                let ssl_mode = if self.ssl {
                    "require"
                } else {
                    "disable"
                };
                s.append("host=");
                s.append(self.host.as_str());
                s.append(" port=");
                append_decimal(&mut s, self.port as u64);
                s.append(" dbname=");
                s.append(self.database.as_str());
                s.append(" user=");
                s.append(self.username.as_str());
                s.append(" password=");
                s.append(self.password.as_str());
                s.append(" sslmode=");
                s.append(ssl_mode);
                s.append(" options=-csearch_path=");
                s.append(schema);
                assert(s@ =~= spec_connection_string(*self));
            },
            DatabaseBackend::SqlServer => {
                s.append("Server=");
                s.append(self.host.as_str());
                s.append(",");
                append_decimal(&mut s, self.port as u64);
                s.append(";Database=");
                s.append(self.database.as_str());
                s.append(";User Id=");
                s.append(self.username.as_str());
                s.append(";Password=");
                s.append(self.password.as_str());
                s.append(";Encrypt=");
                s.append(crate::text::bool_str(self.ssl));
                s.append(";");
                assert(s@ =~= spec_connection_string(*self));
            },
            DatabaseBackend::Oracle => {
                s.append("//");
                s.append(self.host.as_str());
                s.append(":");
                append_decimal(&mut s, self.port as u64);
                s.append("/");
                s.append(self.database.as_str());
                assert(s@ =~= spec_connection_string(*self));
            },
        }
        s
    }
}

/// A query specification for reading from a database.
#[derive(Debug)]
pub struct DatabaseQuery {
    /// SQL query or table name.
    pub query: String,
    /// Name of the geometry column.
    pub geometry_column: String,
    /// Spatial reference system ID.
    pub srid: Option<u32>,
    /// Maximum features to return (for preview/paging).
    pub limit: Option<usize>,
    /// Spatial extent filter (minx, miny, maxx, maxy), each bound by the decimal
    /// text `{}` prints for it.
    pub bbox: Option<[String; 4]>,
}

/// The SQL a query specification stands for: the query itself when it begins with
/// `select` (ignoring case and surrounding whitespace), else a `SELECT *` from the
/// named table; then an intersection filter for the bounding box (joined by `AND`
/// when the text already has a `WHERE` clause, that is the word `where` in any
/// case, else by `WHERE`); then the limit.
pub open spec fn spec_build_sql(q: DatabaseQuery) -> Seq<char> {
    let base = if has_prefix(lowercase(trimmed(q.query@)), "select"@) {
        q.query@
    } else {
        "SELECT * FROM "@ + q.query@
    };
    let with_bbox = match q.bbox {
        Some(b) => {
            let srid: nat = match q.srid {
                Some(s) => s as nat,
                None => 4326,
            };
            let envelope = "ST_MakeEnvelope("@ + b[0]@ + ", "@ + b[1]@ + ", "@ + b[2]@ + ", "@
                + b[3]@ + ", "@ + decimal(srid) + ")"@;
            let glue = if has_word(lowercase(base), "where"@) {
                " AND ST_Intersects("@
            } else {
                " WHERE ST_Intersects("@
            };
            base + glue + q.geometry_column@ + ", "@ + envelope + ")"@
        },
        None => base,
    };
    match q.limit {
        Some(l) => with_bbox + " LIMIT "@ + decimal(l as nat),
        None => with_bbox,
    }
}

impl DatabaseQuery {
    /// Builds the SQL with optional spatial filter and limit (see `spec_build_sql`).
    #[verifier::rlimit(40)]
    pub fn build_sql(&self) -> (r: String)
        ensures
            r@ == spec_build_sql(*self),
    {
        let head = crate::text::to_lowercase(crate::text::trim(self.query.as_str()));
        let mut sql = if crate::text::starts_with(head.as_str(), "select") {
            self.query.clone()
        } else {
            crate::text::cat("SELECT * FROM ", self.query.as_str())
        };
        let ghost base = sql@;
        match &self.bbox {
            Some(b) => {
                let srid: u32 = match self.srid {
                    Some(s) => s,
                    None => 4326,
                };
                let lower = crate::text::to_lowercase(sql.as_str());
                if crate::text::contains_word(lower.as_str(), "where") {
                    sql.append(" AND ST_Intersects(");
                } else {
                    sql.append(" WHERE ST_Intersects(");
                }
                sql.append(self.geometry_column.as_str());
                sql.append(", ");
                sql.append("ST_MakeEnvelope(");
                sql.append(b[0].as_str());
                sql.append(", ");
                sql.append(b[1].as_str());
                sql.append(", ");
                sql.append(b[2].as_str());
                sql.append(", ");
                sql.append(b[3].as_str());
                sql.append(", ");
                append_decimal(&mut sql, srid as u64);
                sql.append(")");
                sql.append(")");
            },
            None => {},
        }
        match self.limit {
            Some(l) => {
                sql.append(" LIMIT ");
                append_decimal(&mut sql, l as u64);
            },
            None => {},
        }
        assert(sql@ =~= spec_build_sql(*self));
        sql
    }
}

/// Write specification for database output.
#[derive(Debug)]
pub struct DatabaseWriteConfig {
    pub table: String,
    pub geometry_column: String,
    pub srid: u32,
    pub mode: WriteMode,
}

/// How to handle existing data when writing.
#[derive(Debug, Clone, Copy, PartialEq, Eq, Structural)]
pub enum WriteMode {
    /// Append to existing table.
    Append,
    /// Drop and recreate table.
    Replace,
    /// Create table if not exists.
    CreateIfNotExists,
}

/// Enterprise database connectors.
pub trait DatabaseConnector {
    /// Tests the connection.
    fn ping(&self) -> Result<(), PipelineError>;

    /// Lists available tables/layers.
    fn list_layers(&self) -> Result<Vec<String>, PipelineError>;

    /// Reads features from a query.
    fn read_features(&self, query: &DatabaseQuery) -> Result<FeatureCollection, PipelineError>;

    /// Writes features to a table; returns how many were written.
    fn write_features(&self, config: &DatabaseWriteConfig, features: &FeatureCollection) -> Result<
        usize,
        PipelineError,
    >;

    /// Row count of a table.
    fn count(&self, table: &str) -> Result<usize, PipelineError>;
}

/// PostGIS connector stub: answers without a server.
#[derive(Debug)]
pub struct PostGisConnector {
    pub config: DatabaseConfig,
}

impl PostGisConnector {
    /// A connector for the given configuration.
    pub fn new(config: DatabaseConfig) -> (r: Self)
        ensures
            r.config == config,
    {
        PostGisConnector { config }
    }
}

impl DatabaseConnector for PostGisConnector {
    fn ping(&self) -> (r: Result<(), PipelineError>)
        ensures
            r is Ok,
    {
        Ok(())
    }

    fn list_layers(&self) -> (r: Result<Vec<String>, PipelineError>)
        ensures
            r matches Ok(v) && v@.len() == 0,
    {
        Ok(Vec::new())
    }

    fn read_features(&self, _query: &DatabaseQuery) -> (r: Result<FeatureCollection, PipelineError>)
        ensures
            r matches Ok(fc) && fc.features@.len() == 0 && fc.crs is None,
    {
        Ok(FeatureCollection::empty())
    }

    fn write_features(&self, _config: &DatabaseWriteConfig, features: &FeatureCollection) -> (r: Result<
        usize,
        PipelineError,
    >)
        ensures
            r matches Ok(n) && n == features.features@.len(),
    {
        Ok(features.len())
    }

    fn count(&self, _table: &str) -> (r: Result<usize, PipelineError>)
        ensures
            r matches Ok(n) && n == 0,
    {
        Ok(0)
    }
}

/// SQL column type of a property value.
pub open spec fn spec_sql_type(v: Value) -> Seq<char> {
    match v {
        Value::Null => "TEXT"@,
        Value::Bool(_) => "BOOLEAN"@,
        Value::Integer(_) => "BIGINT"@,
        Value::Float(_) => "DOUBLE PRECISION"@,
        Value::String(_) => "TEXT"@,
    }
}

fn sql_type(v: &Value) -> (r: &'static str)
    ensures
        r@ == spec_sql_type(*v),
{
    match v {
        Value::Null => "TEXT",
        Value::Bool(_) => "BOOLEAN",
        Value::Integer(_) => "BIGINT",
        Value::Float(_) => "DOUBLE PRECISION",
        Value::String(_) => "TEXT",
    }
}

/// Column definition of a property.
pub open spec fn column_def(e: (String, Value)) -> Seq<char> {
    "    "@ + e.0@ + " "@ + spec_sql_type(e.1)
}

/// The `CREATE TABLE` statement for a collection: one column per property of the
/// first feature, typed by its value, and a geometry column typed by the first
/// feature's geometry (`GEOMETRY` for an empty collection); with no property
/// columns the geometry column follows the key column directly.
pub open spec fn spec_create_table(
    table: Seq<char>,
    fc: FeatureCollection,
    geom_col: Seq<char>,
    srid: u32,
) -> Seq<char> {
    let columns = if fc.features@.len() > 0 {
        fc.features@[0].properties@.map_values(|e: (String, Value)| column_def(e))
    } else {
        Seq::empty()
    };
    let geom_type = if fc.features@.len() > 0 {
        spec_geometry_pg_type(fc.features@[0].geometry)
    } else {
        "GEOMETRY"@
    };
    let column_lines = if columns.len() > 0 {
        join(columns, ",\n"@) + ",\n"@
    } else {
        Seq::empty()
    };
    "CREATE TABLE IF NOT EXISTS "@ + table + " (\n    id SERIAL PRIMARY KEY,\n"@ + column_lines
        + "    "@ + geom_col + " geometry("@ + geom_type + ", "@ + decimal(srid as nat)
        + ")\n);"@
}

/// Generates a `CREATE TABLE` DDL statement from a feature collection
/// (see `spec_create_table`).
pub fn generate_create_table(table: &str, fc: &FeatureCollection, geom_col: &str, srid: u32) -> (r:
    String)
    ensures
        r@ == spec_create_table(table@, *fc, geom_col@, srid),
{
    let mut columns: Vec<String> = Vec::new();
    let ghost cols_spec = if fc.features@.len() > 0 {
        fc.features@[0].properties@.map_values(|e: (String, Value)| column_def(e))
    } else {
        Seq::<Seq<char>>::empty()
    };
    if fc.features.len() > 0 {
        let props = &fc.features[0].properties;
        let mut i: usize = 0;
        while i < props.len()
            invariant
                fc.features@.len() > 0,
                *props == fc.features@[0].properties,
                cols_spec == props@.map_values(|e: (String, Value)| column_def(e)),
                i <= props@.len(),
                columns@.len() == i,
                forall|j: int| 0 <= j < i ==> #[trigger] columns@[j]@ == cols_spec[j],
            decreases props@.len() - i,
        {
            let mut c = String::from_str("    ");
            c.append(props[i].0.as_str());
            c.append(" ");
            c.append(sql_type(&props[i].1));
            assert(c@ =~= column_def(props@[i as int]));
            columns.push(c);
            i = i + 1;
        }
    }
    proof {
        assert(columns@.map_values(|s: String| s@) =~= cols_spec);
    }
    let geom_type = if fc.features.len() > 0 {
        geometry_pg_type(&fc.features[0].geometry)
    } else {
        "GEOMETRY"
    };
    let joined = crate::text::join_strings(&columns, ",\n");
    let mut s = String::from_str("CREATE TABLE IF NOT EXISTS ");
    s.append(table);
    s.append(" (\n    id SERIAL PRIMARY KEY,\n");
    if columns.len() > 0 {
        s.append(joined.as_str());
        s.append(",\n");
    }
    s.append("    ");
    s.append(geom_col);
    s.append(" geometry(");
    s.append(geom_type);
    s.append(", ");
    append_decimal(&mut s, srid as u64);
    s.append(")\n);");
    assert(s@ =~= spec_create_table(table@, *fc, geom_col@, srid));
    s
}

} // verus!
