//! Descriptions of the database schema: tables, columns, indexes and
//! foreign keys.

use vstd::prelude::*;

verus! {

/// Information about a table column.
#[derive(Debug, Clone)]
pub struct ColumnInfo {
    pub name: String,
    pub data_type: String,
    pub nullable: bool,
    pub default_value: Option<String>,
    pub primary_key: bool,
}

/// Information about an index.
#[derive(Debug, Clone)]
pub struct IndexInfo {
    pub name: String,
    pub table_name: String,
    pub unique: bool,
    pub columns: Vec<String>,
}

/// Information about a foreign key relationship.
#[derive(Debug, Clone)]
pub struct ForeignKeyInfo {
    pub from_column: String,
    pub to_table: String,
    pub to_column: String,
    pub on_update: String,
    pub on_delete: String,
}

/// Information about a table.
#[derive(Debug, Clone)]
pub struct TableInfo {
    pub name: String,
    /// "table" or "view".
    pub table_type: String,
    pub columns: Vec<ColumnInfo>,
    pub indexes: Vec<IndexInfo>,
    pub foreign_keys: Vec<ForeignKeyInfo>,
    pub sql: Option<String>,
}

/// Complete database schema.
#[derive(Debug, Clone)]
pub struct DatabaseSchema {
    pub tables: Vec<TableInfo>,
    pub sqlite_version: String,
}

} // verus!
