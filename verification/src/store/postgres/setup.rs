//! How a PostgreSQL store makes sure of its table.
//!
//! The table is made where it is missing, locked, and then held against the required
//! columns, primary key and expiration index; the index is made where it is missing. All of
//! it happens in one transaction. Each stage has one request to the server, and the reply
//! decides what comes next.

use crate::error::{Error, ErrorModel, Outcome, Result};
use crate::store::postgres::store::{index_name_of, PostgresStore};
use crate::text::{concat, option_text, str_eq, texts};
use vstd::prelude::*;
#[allow(unused_imports)]
use vstd::string::*;

verus! {

/// What is asked of the server next.
#[derive(Debug, Clone, Copy, PartialEq, Eq, Structural)]
pub enum SetupStage {
    Begin,
    CreateTable,
    LockTable,
    Columns,
    Constraints,
    Indexes,
    CreateIndex,
    IndexesAgain,
    Commit,
    Done,
}

/// A column as the server describes it.
#[derive(Debug, PartialEq, Eq)]
pub struct ColumnInfo {
    pub ordinal_position: i32,
    pub column_name: String,
    pub data_type: String,
    pub udt_name: String,
    pub is_nullable: String,
    pub column_default: Option<String>,
    pub is_identity: String,
    pub is_generated: String,
}

/// The model of [`ColumnInfo`].
pub struct ColumnModel {
    pub ordinal_position: int,
    pub column_name: Seq<char>,
    pub data_type: Seq<char>,
    pub udt_name: Seq<char>,
    pub is_nullable: Seq<char>,
    pub column_default: Option<Seq<char>>,
    pub is_identity: Seq<char>,
    pub is_generated: Seq<char>,
}

impl View for ColumnInfo {
    type V = ColumnModel;

    open spec fn view(&self) -> ColumnModel {
        ColumnModel {
            ordinal_position: self.ordinal_position as int,
            column_name: self.column_name@,
            data_type: self.data_type@,
            udt_name: self.udt_name@,
            is_nullable: self.is_nullable@,
            column_default: option_text(self.column_default),
            is_identity: self.is_identity@,
            is_generated: self.is_generated@,
        }
    }
}

/// A constraint as the server describes it.
#[derive(Debug, PartialEq, Eq)]
pub struct ConstraintInfo {
    pub constraint_type: String,
    pub definition: String,
}

/// An index as the server describes it.
#[derive(Debug, PartialEq, Eq)]
pub struct IndexInfo {
    pub index_name: String,
    pub is_unique: bool,
    pub is_primary: bool,
    pub columns: Vec<String>,
    pub predicate: Option<String>,
}

/// The model of [`IndexInfo`].
#[verifier::ext_equal]
pub struct IndexModel {
    pub index_name: Seq<char>,
    pub is_unique: bool,
    pub is_primary: bool,
    pub columns: Seq<Seq<char>>,
    pub predicate: Option<Seq<char>>,
}

impl View for IndexInfo {
    type V = IndexModel;

    open spec fn view(&self) -> IndexModel {
        IndexModel {
            index_name: self.index_name@,
            is_unique: self.is_unique,
            is_primary: self.is_primary,
            columns: texts(self.columns@),
            predicate: option_text(self.predicate),
        }
    }
}

/// What the server answered.
pub enum SetupReply {
    /// The command was carried out.
    Done,
    Columns(Vec<ColumnInfo>),
    Constraints(Vec<ConstraintInfo>),
    Indexes(Vec<IndexInfo>),
    /// The request failed, for the reason given.
    Failed(String),
    /// The rows came, but a field of them cannot be read, for the reason given.
    Unreadable(String),
}

/// The model of [`SetupReply`].
pub enum ReplyModel {
    Done,
    Columns(Seq<ColumnModel>),
    Constraints(Seq<(Seq<char>, Seq<char>)>),
    Indexes(Seq<IndexModel>),
    Failed(Seq<char>),
    Unreadable(Seq<char>),
}

impl View for SetupReply {
    type V = ReplyModel;

    open spec fn view(&self) -> ReplyModel {
        match self {
            SetupReply::Done => ReplyModel::Done,
            SetupReply::Columns(c) => ReplyModel::Columns(c@.map_values(|x: ColumnInfo| x@)),
            SetupReply::Constraints(c) => ReplyModel::Constraints(
                c@.map_values(|x: ConstraintInfo| (x.constraint_type@, x.definition@)),
            ),
            SetupReply::Indexes(i) => ReplyModel::Indexes(i@.map_values(|x: IndexInfo| x@)),
            SetupReply::Failed(e) => ReplyModel::Failed(e@),
            SetupReply::Unreadable(e) => ReplyModel::Unreadable(e@),
        }
    }
}

/// A column without default, identity or generation.
pub open spec fn plain_column(
    ordinal_position: int,
    column_name: Seq<char>,
    data_type: Seq<char>,
    udt_name: Seq<char>,
    is_nullable: Seq<char>,
) -> ColumnModel {
    ColumnModel {
        ordinal_position,
        column_name,
        data_type,
        udt_name,
        is_nullable,
        column_default: None,
        is_identity: "NO"@,
        is_generated: "NEVER"@,
    }
}

/// The columns that the table must have.
pub open spec fn required_columns() -> Seq<ColumnModel> {
    seq![
        plain_column(1, "collection"@, "text"@, "text"@, "NO"@),
        plain_column(2, "key"@, "text"@, "text"@, "NO"@),
        plain_column(3, "entry"@, "bytea"@, "bytea"@, "NO"@),
        plain_column(
            4,
            "expires_at"@,
            "timestamp with time zone"@,
            "timestamptz"@,
            "YES"@,
        ),
    ]
}

/// The constraints that the table must have.
pub open spec fn required_constraints() -> Seq<(Seq<char>, Seq<char>)> {
    seq![("p"@, "PRIMARY KEY (collection, key)"@)]
}

/// The expiration index that the table must have.
pub open spec fn required_index(table: Seq<char>) -> IndexModel {
    IndexModel {
        index_name: index_name_of(table),
        is_unique: false,
        is_primary: false,
        columns: seq!["expires_at"@],
        predicate: Some("(expires_at IS NOT NULL)"@),
    }
}

/// What a failed request is reported as.
pub open spec fn failure_text(stage: SetupStage, table: Seq<char>) -> Seq<char> {
    match stage {
        SetupStage::Begin => "failed to start Postgres setup transaction"@,
        SetupStage::CreateTable => "failed to create Postgres table "@ + table,
        SetupStage::LockTable => "failed to lock Postgres table "@ + table + " for validation"@,
        SetupStage::Columns => "failed to inspect Postgres table "@ + table,
        SetupStage::Constraints => "failed to inspect Postgres constraints for "@ + table,
        SetupStage::Indexes => "failed to inspect Postgres expiration index for "@ + table,
        SetupStage::CreateIndex => "failed to create Postgres expiration index for "@ + table,
        SetupStage::IndexesAgain => "failed to verify Postgres expiration index for "@ + table,
        SetupStage::Commit => "failed to commit Postgres setup transaction"@,
        SetupStage::Done => ""@,
    }
}

/// What unreadable rows are reported as.
pub open spec fn unreadable_text(stage: SetupStage, table: Seq<char>) -> Seq<char> {
    match stage {
        SetupStage::Columns => "invalid Postgres column metadata for "@ + table,
        SetupStage::Constraints => "invalid Postgres constraint metadata for "@ + table,
        _ => "invalid Postgres index metadata for "@ + table,
    }
}

/// Whether a reply is of the kind that a stage's request is answered with.
pub open spec fn answers(reply: ReplyModel, stage: SetupStage) -> bool {
    match reply {
        ReplyModel::Done => stage is Begin || stage is CreateTable || stage is LockTable
            || stage is CreateIndex || stage is Commit,
        ReplyModel::Columns(_) => stage is Columns,
        ReplyModel::Constraints(_) => stage is Constraints,
        ReplyModel::Indexes(_) => stage is Indexes || stage is IndexesAgain,
        ReplyModel::Failed(_) => !(stage is Done),
        ReplyModel::Unreadable(_) => stage is Columns || stage is Constraints || stage is Indexes
            || stage is IndexesAgain,
    }
}

/// The stage that follows a reply, or why the table cannot be used.
pub open spec fn next_stage(table: Seq<char>, stage: SetupStage, reply: ReplyModel) -> Outcome<
    SetupStage,
> {
    match reply {
        ReplyModel::Failed(why) => Err(
            ErrorModel::StoreSetup { message: failure_text(stage, table) + ": "@ + why },
        ),
        ReplyModel::Unreadable(why) => Err(
            ErrorModel::StoreSetup { message: unreadable_text(stage, table) + ": "@ + why },
        ),
        ReplyModel::Done => Ok(
            match stage {
                SetupStage::Begin => SetupStage::CreateTable,
                SetupStage::CreateTable => SetupStage::LockTable,
                SetupStage::LockTable => SetupStage::Columns,
                SetupStage::CreateIndex => SetupStage::IndexesAgain,
                _ => SetupStage::Done,
            },
        ),
        ReplyModel::Columns(columns) => if columns == required_columns() {
            Ok(SetupStage::Constraints)
        } else {
            Err(
                ErrorModel::StoreSetup {
                    message: "Postgres table "@ + table
                        + " does not match the required OpenKeyV schema"@,
                },
            )
        },
        ReplyModel::Constraints(constraints) => if constraints == required_constraints() {
            Ok(SetupStage::Indexes)
        } else {
            Err(
                ErrorModel::StoreSetup {
                    message: "Postgres table "@ + table
                        + " does not have the required primary key"@,
                },
            )
        },
        ReplyModel::Indexes(indexes) => if indexes.len() == 0 && stage is Indexes {
            Ok(SetupStage::CreateIndex)
        } else if indexes == seq![required_index(table)] {
            Ok(SetupStage::Commit)
        } else {
            Err(
                ErrorModel::StoreSetup {
                    message: "Postgres table "@ + table
                        + " has an invalid or duplicate expiration index"@,
                },
            )
        },
    }
}

/// Where a run of replies leads from a stage.
pub open spec fn setup_run(table: Seq<char>, stage: SetupStage, replies: Seq<ReplyModel>) -> Outcome<
    SetupStage,
>
    decreases replies.len(),
{
    if replies.len() == 0 {
        Ok(stage)
    } else {
        match setup_run(table, stage, replies.drop_last()) {
            Err(e) => Err(e),
            Ok(at) => if answers(replies.last(), at) {
                next_stage(table, at, replies.last())
            } else {
                Ok(at)
            },
        }
    }
}

spec fn rank(stage: SetupStage) -> int {
    match stage {
        SetupStage::Begin => 0,
        SetupStage::CreateTable => 1,
        SetupStage::LockTable => 2,
        SetupStage::Columns => 3,
        SetupStage::Constraints => 4,
        SetupStage::Indexes => 5,
        SetupStage::CreateIndex => 6,
        SetupStage::IndexesAgain => 7,
        SetupStage::Commit => 8,
        SetupStage::Done => 9,
    }
}

/// Setup finishes only on a table whose columns, constraints and expiration index the server
/// described just as they are required.
pub proof fn law_setup_sound(table: Seq<char>, replies: Seq<ReplyModel>)
    ensures
        setup_run(table, SetupStage::Begin, replies) == Ok::<_, ErrorModel>(SetupStage::Done) ==> {
            &&& replies.contains(ReplyModel::Columns(required_columns()))
            &&& replies.contains(ReplyModel::Constraints(required_constraints()))
            &&& replies.contains(ReplyModel::Indexes(seq![required_index(table)]))
        },
{
    lemma_setup_seen(table, replies);
}

proof fn lemma_setup_seen(table: Seq<char>, replies: Seq<ReplyModel>)
    ensures
        setup_run(table, SetupStage::Begin, replies) matches Ok(at) ==> {
            &&& rank(at) > 3 ==> replies.contains(ReplyModel::Columns(required_columns()))
            &&& rank(at) > 4 ==> replies.contains(ReplyModel::Constraints(required_constraints()))
            &&& rank(at) > 7 ==> replies.contains(
                ReplyModel::Indexes(seq![required_index(table)]),
            )
        },
    decreases replies.len(),
{
    if replies.len() > 0 {
        let front = replies.drop_last();
        lemma_setup_seen(table, front);
        assert(replies[replies.len() - 1] == replies.last());
        assert forall|r: ReplyModel| front.contains(r) implies replies.contains(r) by {
            let i = choose|i: int| 0 <= i < front.len() && front[i] == r;
            assert(replies[i] == r);
        }
        assert(replies.contains(replies.last()));
    }
}

fn is_plain_column(
    column: &ColumnInfo,
    ordinal: i32,
    name: &str,
    data_type: &str,
    udt_name: &str,
    nullable: &str,
) -> (plain: bool)
    ensures
        plain == (column@ == plain_column(
            ordinal as int,
            name@,
            data_type@,
            udt_name@,
            nullable@,
        )),
{
    column.ordinal_position == ordinal && str_eq(column.column_name.as_str(), name) && str_eq(
        column.data_type.as_str(),
        data_type,
    ) && str_eq(column.udt_name.as_str(), udt_name) && str_eq(
        column.is_nullable.as_str(),
        nullable,
    ) && column.column_default.is_none() && str_eq(column.is_identity.as_str(), "NO") && str_eq(
        column.is_generated.as_str(),
        "NEVER",
    )
}

fn columns_match(columns: &Vec<ColumnInfo>) -> (matches: bool)
    ensures
        matches == (columns@.map_values(|x: ColumnInfo| x@) == required_columns()),
{
    let ghost models = columns@.map_values(|x: ColumnInfo| x@);
    if columns.len() != 4 {
        assert(models.len() != required_columns().len());
        return false;
    }
    let found = is_plain_column(&columns[0], 1, "collection", "text", "text", "NO")
        && is_plain_column(&columns[1], 2, "key", "text", "text", "NO") && is_plain_column(
        &columns[2],
        3,
        "entry",
        "bytea",
        "bytea",
        "NO",
    ) && is_plain_column(
        &columns[3],
        4,
        "expires_at",
        "timestamp with time zone",
        "timestamptz",
        "YES",
    );
    proof {
        assert(models[0] == columns@[0]@ && models[1] == columns@[1]@ && models[2]
            == columns@[2]@ && models[3] == columns@[3]@);
        if found {
            assert(models =~= required_columns());
        }
    }
    found
}

fn constraints_match(constraints: &Vec<ConstraintInfo>) -> (matches: bool)
    ensures
        matches == (constraints@.map_values(
            |x: ConstraintInfo| (x.constraint_type@, x.definition@),
        ) == required_constraints()),
{
    let ghost models = constraints@.map_values(
        |x: ConstraintInfo| (x.constraint_type@, x.definition@),
    );
    if constraints.len() != 1 {
        assert(models.len() != required_constraints().len());
        return false;
    }
    let found = str_eq(constraints[0].constraint_type.as_str(), "p") && str_eq(
        constraints[0].definition.as_str(),
        "PRIMARY KEY (collection, key)",
    );
    proof {
        assert(models[0] == (constraints@[0].constraint_type@, constraints@[0].definition@));
        if found {
            assert(models =~= required_constraints());
        } else if models == required_constraints() {
            assert(required_constraints()[0] == models[0]);
        }
    }
    found
}

fn indexes_match(indexes: &Vec<IndexInfo>, index_name: &str, table: Ghost<Seq<char>>) -> (matches:
    bool)
    requires
        index_name@ == index_name_of(table@),
    ensures
        matches == (indexes@.map_values(|x: IndexInfo| x@) == seq![required_index(table@)]),
{
    let ghost models = indexes@.map_values(|x: IndexInfo| x@);
    let ghost wanted = seq![required_index(table@)];
    if indexes.len() != 1 {
        assert(models.len() != wanted.len());
        return false;
    }
    let index = &indexes[0];
    let predicate_ok = match &index.predicate {
        Some(predicate) => str_eq(predicate.as_str(), "(expires_at IS NOT NULL)"),
        None => false,
    };
    let columns_ok = index.columns.len() == 1 && str_eq(index.columns[0].as_str(), "expires_at");
    let found = str_eq(index.index_name.as_str(), index_name) && !index.is_unique
        && !index.is_primary && columns_ok && predicate_ok;
    proof {
        assert(models[0] == indexes@[0]@);
        assert(wanted[0] == required_index(table@));
        if columns_ok {
            assert(texts(index.columns@) =~= seq!["expires_at"@]);
        } else if texts(index.columns@) == seq!["expires_at"@] {
            assert(texts(index.columns@).len() == seq!["expires_at"@].len());
            assert(texts(index.columns@)[0] == index.columns@[0]@);
            assert(seq!["expires_at"@][0] == "expires_at"@);
        }
        if found {
            assert(models =~= wanted);
        }
    }
    found
}

impl PostgresStore {
    /// What the reply to a stage's request leads to.
    pub fn after_reply(&self, stage: SetupStage, reply: SetupReply) -> (next: Result<SetupStage>)
        requires
            answers(reply@, stage),
        ensures
            match next {
                Ok(s) => next_stage(self.table(), stage, reply@) == Ok::<_, ErrorModel>(s),
                Err(e) => next_stage(self.table(), stage, reply@) == Err::<SetupStage, _>(e@),
            },
    {
        let table = self.table_name();
        match reply {
            SetupReply::Failed(why) => {
                let mut message = self.failure(stage);
                message.append(": ");
                message.append(why.as_str());
                Err(Error::StoreSetup { message })
            },
            SetupReply::Unreadable(why) => {
                let label = match stage {
                    SetupStage::Columns => "invalid Postgres column metadata for ",
                    SetupStage::Constraints => "invalid Postgres constraint metadata for ",
                    _ => "invalid Postgres index metadata for ",
                };
                let mut message = concat(label, table);
                message.append(": ");
                message.append(why.as_str());
                Err(Error::StoreSetup { message })
            },
            SetupReply::Done => Ok(
                match stage {
                    SetupStage::Begin => SetupStage::CreateTable,
                    SetupStage::CreateTable => SetupStage::LockTable,
                    SetupStage::LockTable => SetupStage::Columns,
                    SetupStage::CreateIndex => SetupStage::IndexesAgain,
                    _ => SetupStage::Done,
                },
            ),
            SetupReply::Columns(columns) => if columns_match(&columns) {
                Ok(SetupStage::Constraints)
            } else {
                let mut message = concat("Postgres table ", table);
                message.append(" does not match the required OpenKeyV schema");
                Err(Error::StoreSetup { message })
            },
            SetupReply::Constraints(constraints) => if constraints_match(&constraints) {
                Ok(SetupStage::Indexes)
            } else {
                let mut message = concat("Postgres table ", table);
                message.append(" does not have the required primary key");
                Err(Error::StoreSetup { message })
            },
            SetupReply::Indexes(indexes) => {
                let first_look = match stage {
                    SetupStage::Indexes => true,
                    _ => false,
                };
                if indexes.len() == 0 && first_look {
                    return Ok(SetupStage::CreateIndex);
                }
                let name = self.expires_index_name();
                if indexes_match(&indexes, name.as_str(), Ghost(self.table())) {
                    Ok(SetupStage::Commit)
                } else {
                    let mut message = concat("Postgres table ", table);
                    message.append(" has an invalid or duplicate expiration index");
                    Err(Error::StoreSetup { message })
                }
            },
        }
    }

    fn failure(&self, stage: SetupStage) -> (text: String)
        ensures
            text@ == failure_text(stage, self.table()),
    {
        let table = self.table_name();
        match stage {
            SetupStage::Begin => "failed to start Postgres setup transaction".to_owned(),
            SetupStage::CreateTable => concat("failed to create Postgres table ", table),
            SetupStage::LockTable => {
                let mut text = concat("failed to lock Postgres table ", table);
                text.append(" for validation");
                text
            },
            SetupStage::Columns => concat("failed to inspect Postgres table ", table),
            SetupStage::Constraints => concat("failed to inspect Postgres constraints for ", table),
            SetupStage::Indexes => concat(
                "failed to inspect Postgres expiration index for ",
                table,
            ),
            SetupStage::CreateIndex => concat(
                "failed to create Postgres expiration index for ",
                table,
            ),
            SetupStage::IndexesAgain => concat(
                "failed to verify Postgres expiration index for ",
                table,
            ),
            SetupStage::Commit => "failed to commit Postgres setup transaction".to_owned(),
            SetupStage::Done => "".to_owned(),
        }
    }

    /// The statement that makes the table.
    pub fn create_table_sql(&self) -> (sql: String)
        ensures
            sql@ == "CREATE TABLE IF NOT EXISTS "@ + self.table()
                + " (collection TEXT NOT NULL,key TEXT NOT NULL,entry BYTEA NOT NULL,expires_at TIMESTAMPTZ,PRIMARY KEY (collection, key))"@,
    {
        let mut sql = concat("CREATE TABLE IF NOT EXISTS ", self.table_name());
        sql.append(
            " (collection TEXT NOT NULL,key TEXT NOT NULL,entry BYTEA NOT NULL,expires_at TIMESTAMPTZ,PRIMARY KEY (collection, key))",
        );
        sql
    }

    /// The statement that locks the table.
    pub fn lock_table_sql(&self) -> (sql: String)
        ensures
            sql@ == "LOCK TABLE "@ + self.table() + " IN ACCESS EXCLUSIVE MODE"@,
    {
        let mut sql = concat("LOCK TABLE ", self.table_name());
        sql.append(" IN ACCESS EXCLUSIVE MODE");
        sql
    }

    /// The statement that makes the expiration index.
    pub fn create_index_sql(&self) -> (sql: String)
        ensures
            sql@ == "CREATE INDEX "@ + index_name_of(self.table()) + " ON "@ + self.table()
                + "(expires_at) WHERE expires_at IS NOT NULL"@,
    {
        let mut sql = concat("CREATE INDEX ", self.expires_index_name().as_str());
        sql.append(" ON ");
        sql.append(self.table_name());
        sql.append("(expires_at) WHERE expires_at IS NOT NULL");
        sql
    }
}

/// The table that setup accepts: four plain columns, of which only the time of expiry may be null,
/// one primary key over collection and key, and one index on the rows that expire.
pub proof fn law_accepted_table(
    table: Seq<char>,
    columns: Seq<ColumnModel>,
    constraints: Seq<(Seq<char>, Seq<char>)>,
    indexes: Seq<IndexModel>,
    stage: SetupStage,
)
    ensures
        next_stage(table, SetupStage::Columns, ReplyModel::Columns(columns)) is Ok ==> {
            &&& columns.len() == 4
            &&& columns[0].column_name == "collection"@ && columns[0].udt_name == "text"@
            &&& columns[1].column_name == "key"@ && columns[1].udt_name == "text"@
            &&& columns[2].column_name == "entry"@ && columns[2].udt_name == "bytea"@
            &&& columns[3].column_name == "expires_at"@ && columns[3].udt_name == "timestamptz"@
            &&& columns[0].is_nullable == "NO"@ && columns[1].is_nullable == "NO"@
                && columns[2].is_nullable == "NO"@ && columns[3].is_nullable == "YES"@
            &&& forall|i: int|
                0 <= i < 4 ==> (#[trigger] columns[i]).ordinal_position == i + 1
                    && columns[i].column_default is None && columns[i].is_identity == "NO"@
                    && columns[i].is_generated == "NEVER"@
        },
        next_stage(table, SetupStage::Constraints, ReplyModel::Constraints(constraints)) is Ok
            <==> constraints.len() == 1 && constraints[0].0 == "p"@ && constraints[0].1
            == "PRIMARY KEY (collection, key)"@,
        next_stage(table, stage, ReplyModel::Indexes(indexes)) == Ok::<_, ErrorModel>(
            SetupStage::Commit,
        ) ==> {
            &&& indexes.len() == 1
            &&& indexes[0].index_name == index_name_of(table)
            &&& !indexes[0].is_unique && !indexes[0].is_primary
            &&& indexes[0].columns.len() == 1 && indexes[0].columns[0] == "expires_at"@
            &&& indexes[0].predicate == Some("(expires_at IS NOT NULL)"@)
        },
        next_stage(table, stage, ReplyModel::Indexes(indexes)) == Ok::<_, ErrorModel>(
            SetupStage::CreateIndex,
        ) <==> indexes.len() == 0 && stage is Indexes,
{
    if constraints.len() == 1 {
        assert(constraints[0] == (constraints[0].0, constraints[0].1));
        if constraints[0].0 == "p"@ && constraints[0].1 == "PRIMARY KEY (collection, key)"@ {
            assert(constraints =~= required_constraints());
        }
    }
}

/// Setup goes forward one stage at a time, as long as the server does what it is asked; a request
/// that fails, or an answer that cannot be read, ends it with a setup error.
pub proof fn law_setup_order(table: Seq<char>, why: Seq<char>, stage: SetupStage)
    ensures
        next_stage(table, SetupStage::Begin, ReplyModel::Done) == Ok::<_, ErrorModel>(
            SetupStage::CreateTable,
        ),
        next_stage(table, SetupStage::CreateTable, ReplyModel::Done) == Ok::<_, ErrorModel>(
            SetupStage::LockTable,
        ),
        next_stage(table, SetupStage::LockTable, ReplyModel::Done) == Ok::<_, ErrorModel>(
            SetupStage::Columns,
        ),
        next_stage(table, SetupStage::Columns, ReplyModel::Columns(required_columns())) == Ok::<
            _,
            ErrorModel,
        >(SetupStage::Constraints),
        next_stage(
            table,
            SetupStage::Constraints,
            ReplyModel::Constraints(required_constraints()),
        ) == Ok::<_, ErrorModel>(SetupStage::Indexes),
        next_stage(table, SetupStage::CreateIndex, ReplyModel::Done) == Ok::<_, ErrorModel>(
            SetupStage::IndexesAgain,
        ),
        next_stage(table, SetupStage::Commit, ReplyModel::Done) == Ok::<_, ErrorModel>(
            SetupStage::Done,
        ),
        next_stage(table, stage, ReplyModel::Failed(why)) matches Err(e) && e is StoreSetup,
        next_stage(table, stage, ReplyModel::Unreadable(why)) matches Err(e) && e is StoreSetup,
{
}

} // verus!
