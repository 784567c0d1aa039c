//! Which table a SQLite store uses.

use crate::error::{Error, ErrorModel, Result};
use crate::text::{concat, is_digit, is_word, is_word_text};
use vstd::prelude::*;
#[allow(unused_imports)]
use vstd::string::*;
use vstd::utf8::encode_utf8;

verus! {

/// Which table a store uses, and which collection where none is named.
#[derive(Clone, Debug, PartialEq, Eq)]
pub struct SqliteConfig {
    pub table_name: String,
    pub default_collection: String,
}

/// The longest name of a table, in bytes.
pub const MAX_NAME_BYTES: usize = 63;

/// Whether a name may start with a character: an ASCII letter or an underscore.
pub open spec fn may_start(c: char) -> bool {
    is_word(seq![c]) && !is_digit(c)
}

/// Why a name cannot be that of a table, if it cannot.
pub open spec fn table_name_fault(name: Seq<char>) -> Option<ErrorModel> {
    if name.len() == 0 {
        Some(ErrorModel::StoreSetup { message: "table name cannot be empty"@ })
    } else if encode_utf8(name).len() > MAX_NAME_BYTES {
        Some(ErrorModel::StoreSetup { message: "table name too long (>63): "@ + name })
    } else if !may_start(name[0]) {
        Some(
            ErrorModel::StoreSetup {
                message: "table name must start with an ASCII letter or underscore: "@ + name,
            },
        )
    } else if !is_word(name) {
        Some(
            ErrorModel::StoreSetup {
                message: "table name must contain only ASCII letters, digits, and underscores: "@
                    + name,
            },
        )
    } else {
        None
    }
}

fn validate_table_name(name: &str) -> (result: Result<()>)
    ensures
        match result {
            Ok(_) => table_name_fault(name@) is None,
            Err(e) => table_name_fault(name@) == Some(e@),
        },
{
    if name.is_empty() {
        return Err(Error::StoreSetup { message: "table name cannot be empty".to_owned() });
    }
    if name.as_bytes().len() > MAX_NAME_BYTES {
        return Err(Error::StoreSetup { message: concat("table name too long (>63): ", name) });
    }
    let first = name.get_char(0);
    if !('a' <= first && first <= 'z' || 'A' <= first && first <= 'Z' || first == '_') {
        assert(seq![first][0] == first);
        return Err(
            Error::StoreSetup {
                message: concat(
                    "table name must start with an ASCII letter or underscore: ",
                    name,
                ),
            },
        );
    }
    assert(may_start(first));
    if !is_word_text(name) {
        return Err(
            Error::StoreSetup {
                message: concat(
                    "table name must contain only ASCII letters, digits, and underscores: ",
                    name,
                ),
            },
        );
    }
    Ok(())
}

impl SqliteConfig {
    /// The table that an optional name stands for.
    pub open spec fn table_of(table_name: Option<&str>) -> Seq<char> {
        match table_name {
            Some(name) => name@,
            None => "kv_entries"@,
        }
    }

    pub fn new(table_name: Option<&str>) -> (config: Result<Self>)
        ensures
            match config {
                Ok(c) => {
                    &&& table_name_fault(SqliteConfig::table_of(table_name)) is None
                    &&& c.table_name@ == SqliteConfig::table_of(table_name)
                    &&& c.default_collection@ == "default_collection"@
                },
                Err(e) => table_name_fault(SqliteConfig::table_of(table_name)) == Some(e@),
            },
    {
        let table_name = match table_name {
            Some(name) => name.to_owned(),
            None => "kv_entries".to_owned(),
        };
        validate_table_name(table_name.as_str())?;
        Ok(SqliteConfig { table_name, default_collection: "default_collection".to_owned() })
    }
}

/// A table name can be used exactly where it has 1 to 63 bytes, all of them ASCII letters, digits
/// and underscores, and no digit in front.
pub proof fn law_table_name(name: Seq<char>)
    ensures
        table_name_fault(name) is None <==> {
            &&& 0 < name.len()
            &&& encode_utf8(name).len() <= 63
            &&& !('0' <= name[0] <= '9')
            &&& forall|i: int|
                0 <= i < name.len() ==> {
                    ||| 'a' <= #[trigger] name[i] <= 'z'
                    ||| 'A' <= name[i] <= 'Z'
                    ||| '0' <= name[i] <= '9'
                    ||| name[i] == '_'
                }
        },
        table_name_fault(name) matches Some(e) ==> e is StoreSetup,
{
    if is_word(name) {
        assert forall|i: int| 0 <= i < name.len() implies {
            ||| 'a' <= #[trigger] name[i] <= 'z'
            ||| 'A' <= name[i] <= 'Z'
            ||| '0' <= name[i] <= '9'
            ||| name[i] == '_'
        } by {
            assert(crate::text::is_word_char(name[i]));
        }
    }
    if name.len() > 0 && crate::text::is_word_char(name[0]) {
        assert forall|i: int| 0 <= i < 1 implies crate::text::is_word_char(
            #[trigger] seq![name[0]][i],
        ) by {}
    }
    if name.len() > 0 && is_word(seq![name[0]]) {
        assert(crate::text::is_word_char(seq![name[0]][0]));
    }
    if name.len() > 0 && is_word(name) {
        assert(crate::text::is_word_char(name[0]));
    }
}

} // verus!
