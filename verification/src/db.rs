//! What the persistent store decides before it talks to its database: which
//! statement reads a table of hidden marks, which statement adds a missing
//! column, and whether a structural change is due.

use crate::text::join2;
use vstd::prelude::*;
use vstd::string::*;

verus! {

/// The two tables of hidden marks, one for each traversal mode.
#[derive(Clone, Copy, Debug, PartialEq, Eq, Structural)]
pub enum HiddenImageTable {
    Normal,
    Random,
}

impl HiddenImageTable {
    /// The statement that reads the marks of one folder from this table.
    pub open spec fn select_text(self) -> Seq<char> {
        match self {
            HiddenImageTable::Normal => "SELECT image_id FROM hidden_normal_images WHERE folder_id = ?1"@,
            HiddenImageTable::Random => "SELECT image_id FROM hidden_random_images WHERE folder_id = ?1"@,
        }
    }

    /// The statement that reads the marks of one folder from this table.
    pub fn select_sql(self) -> (sql: &'static str)
        ensures
            sql@ == self.select_text(),
    {
        match self {
            HiddenImageTable::Normal => {
                "SELECT image_id FROM hidden_normal_images WHERE folder_id = ?1"
            },
            HiddenImageTable::Random => {
                "SELECT image_id FROM hidden_random_images WHERE folder_id = ?1"
            },
        }
    }
}

/// The statement that adds a column to the session's table.
pub open spec fn add_column_text(column_name: Seq<char>, column_def: Seq<char>) -> Seq<char> {
    "ALTER TABLE state ADD COLUMN "@ + column_name + " "@ + column_def
}

/// Whether a column of the session's table has to be added: only when the
/// probe for it succeeded and counted no such column.
pub fn column_is_missing(probe: Option<i64>) -> (missing: bool)
    ensures
        missing == (probe == Some(0i64)),
{
    match probe {
        Some(count) => count == 0,
        None => false,
    }
}

/// The statement that adds the column `column_name`, defined by
/// `column_def`, to the session's table.
pub fn add_column_sql(column_name: &str, column_def: &str) -> (sql: String)
    ensures
        sql@ == add_column_text(column_name@, column_def@),
{
    let mut sql = join2("ALTER TABLE state ADD COLUMN ", column_name);
    sql.append(" ");
    sql.append(column_def);
    sql
}

/// Whether the table of images still carries a uniqueness rule of its own on
/// the path, so that the rule has to move to folder and path together: when
/// the probe counted any such rule.
pub fn needs_path_scope_migration(unique_rules: i64) -> (due: bool)
    ensures
        due == (unique_rules != 0),
{
    unique_rules != 0
}

} // verus!
