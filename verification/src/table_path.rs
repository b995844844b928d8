//! Where the catalog files lie below the base directory of the tables.

use vstd::prelude::*;
use vstd::string::StringExecFns;
use crate::tables::str_text;

verus! {

/// A relative path below a base directory: the relative path alone where
/// the base is empty or the path is absolute, else the two joined by one
/// slash.
pub open spec fn joined_path(base: Seq<char>, relative: Seq<char>) -> Seq<char> {
    if base.len() == 0 || (relative.len() > 0 && relative[0] == '/') {
        relative
    } else if base.last() == '/' {
        base + relative
    } else {
        base + "/"@ + relative
    }
}

fn first_is_slash(text: &str) -> (r: bool)
    requires
        text@.len() > 0,
    ensures
        r == (text@[0] == '/'),
{
    text.get_char(0) == '/'
}

fn last_is_slash(text: &str) -> (r: bool)
    requires
        text@.len() > 0,
    ensures
        r == (text@.last() == '/'),
{
    let n = text.unicode_len();
    text.get_char(n - 1) == '/'
}

/// The path of a table file: its relative path below the base directory.
pub fn get_table_path(base: &str, relative_path: &str) -> (r: String)
    ensures
        r@ == joined_path(base@, relative_path@),
{
    if base.unicode_len() == 0 {
        return String::from_str(relative_path);
    }
    if relative_path.unicode_len() > 0 && first_is_slash(relative_path) {
        return String::from_str(relative_path);
    }
    let mut path = String::from_str(base);
    if !last_is_slash(base) {
        path.append("/");
    }
    path.append(relative_path);
    path
}


/// The base directory of the tables: the configured one where one is set,
/// else the one that the environment names, else `tables`.
pub open spec fn base_path_of(configured: Option<Seq<char>>, environment: Option<Seq<char>>)
    -> Seq<char> {
    match configured {
        Some(path) => path,
        None => match environment {
            Some(path) => path,
            None => "tables"@,
        },
    }
}

/// The base directory of the tables, from what was configured and what the
/// environment variable `RBUFR_TABLES_PATH` holds.
pub fn get_tables_base_path(configured: Option<&str>, environment: Option<&str>) -> (r: String)
    ensures
        r@ == base_path_of(str_text(configured), str_text(environment)),
{
    match configured {
        Some(path) => String::from_str(path),
        None => match environment {
            Some(path) => String::from_str(path),
            None => String::from_str("tables"),
        },
    }
}

} // verus!
