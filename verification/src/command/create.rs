//! The create command: databases, tables, columns, indexes.

use crate::client_context::ClientContext;
use crate::db::{
    spec_activate_post, spec_create_column_post, spec_create_index_post, spec_create_table_post,
    Db,
};
use crate::errors::DbError;
use crate::message::ServerMessage;
use crate::parse::{trim_quotes, ParserContext};
use crate::text::{parse_u64, spec_parse_u64};
use vstd::prelude::*;

verus! {

#[derive(Clone, Copy)]
pub enum CreateCommandIndexType {
    NoIndex,
    UnclusteredSorted,
    UnclusteredBTree,
    ClusteredSorted,
    ClusteredBTree,
}

pub enum CreateCommand {
    Db { db_name: String },
    Table { db_var: String, table_name: String, n_cols: usize },
    Column { table_var: String, column_name: String },
    Index { column_var: String, index_type: CreateCommandIndexType },
}

/// Whether the text is surrounded by double quotes, and the text inside.
pub open spec fn spec_quoted(s: Seq<char>) -> Option<Seq<char>> {
    if s.len() >= 2 && s[0] == '"' && s[s.len() - 1] == '"' {
        Some(s.subrange(1, s.len() - 1))
    } else {
        None
    }
}

impl CreateCommand {
    /// Dispatches on the subkind named by the first argument.
    pub fn parse(ctx: ParserContext) -> (r: (Option<CreateCommand>, ServerMessage))
        ensures
            ({
                let (cmd, msg) = r;
                let args = ctx.args@.map_values(|s: String| s@);
                if args.len() == 2 && args[0] == "db"@ {
                    match spec_quoted(args[1]) {
                        Some(name) => msg is Okay && (cmd matches Some(
                            CreateCommand::Db { db_name },
                        ) && db_name@ == name),
                        None => msg is InvalidCommand && cmd is None,
                    }
                } else if args.len() == 4 && args[0] == "tbl"@ {
                    match (spec_quoted(args[1]), spec_parse_u64(args[3])) {
                        (Some(name), Some(n)) => if n <= usize::MAX as u64 {
                            msg is Okay && (cmd matches Some(
                                CreateCommand::Table { db_var, table_name, n_cols },
                            ) && table_name@ == name && db_var@ == args[2] && n_cols == n)
                        } else {
                            msg is InvalidCommand && cmd is None
                        },
                        _ => msg is InvalidCommand && cmd is None,
                    }
                } else if args.len() == 3 && args[0] == "col"@ {
                    match spec_quoted(args[1]) {
                        Some(name) => msg is Okay && (cmd matches Some(
                            CreateCommand::Column { table_var, column_name },
                        ) && column_name@ == name && table_var@ == args[2]),
                        None => msg is InvalidCommand && cmd is None,
                    }
                } else if args.len() == 4 && args[0] == "idx"@ {
                    let kind = spec_index_kind_of(args[2], args[3]);
                    match kind {
                        Some(k) => msg is Okay && (cmd matches Some(
                            CreateCommand::Index { column_var, index_type },
                        ) && column_var@ == args[1] && index_type_matches(index_type, k)),
                        None => msg is InvalidCommand && cmd is None,
                    }
                } else {
                    msg is InvalidCommand && cmd is None
                }
            }),
    {
        proof {
            reveal_strlit("db");
            reveal_strlit("tbl");
            reveal_strlit("col");
            reveal_strlit("idx");
            reveal_strlit("sorted");
            reveal_strlit("btree");
            reveal_strlit("unclustered");
            reveal_strlit("clustered");
        }
        if ctx.args.len() == 2 && crate::text::str_eq(ctx.args[0].as_str(), "db") {
            let (name, m) = trim_quotes(ctx.args[1].as_str());
            if matches!(m, ServerMessage::Okay) {
                (Some(CreateCommand::Db { db_name: name }), ServerMessage::Okay)
            } else {
                (None, ServerMessage::InvalidCommand)
            }
        } else if ctx.args.len() == 4 && crate::text::str_eq(ctx.args[0].as_str(), "tbl") {
            let (name, m) = trim_quotes(ctx.args[1].as_str());
            if !matches!(m, ServerMessage::Okay) {
                return (None, ServerMessage::InvalidCommand);
            }
            let n = match parse_u64(ctx.args[3].as_str()) {
                Some(n) => n,
                None => {
                    return (None, ServerMessage::InvalidCommand);
                },
            };
            if n > usize::MAX as u64 {
                return (None, ServerMessage::InvalidCommand);
            }
            let mut ctx = ctx;
            let db_var = ctx.args.remove(2);
            (
                Some(
                    CreateCommand::Table { db_var, table_name: name, n_cols: n as usize },
                ),
                ServerMessage::Okay,
            )
        } else if ctx.args.len() == 3 && crate::text::str_eq(ctx.args[0].as_str(), "col") {
            let (name, m) = trim_quotes(ctx.args[1].as_str());
            if !matches!(m, ServerMessage::Okay) {
                return (None, ServerMessage::InvalidCommand);
            }
            let mut ctx = ctx;
            let table_var = ctx.args.remove(2);
            (
                Some(CreateCommand::Column { table_var, column_name: name }),
                ServerMessage::Okay,
            )
        } else if ctx.args.len() == 4 && crate::text::str_eq(ctx.args[0].as_str(), "idx") {
            let sorted_kind = crate::text::str_eq(ctx.args[2].as_str(), "sorted");
            let btree_kind = crate::text::str_eq(ctx.args[2].as_str(), "btree");
            let unclustered = crate::text::str_eq(ctx.args[3].as_str(), "unclustered");
            let clustered = crate::text::str_eq(ctx.args[3].as_str(), "clustered");
            let index_type = if sorted_kind && unclustered {
                CreateCommandIndexType::UnclusteredSorted
            } else if btree_kind && unclustered {
                CreateCommandIndexType::UnclusteredBTree
            } else if sorted_kind && clustered {
                CreateCommandIndexType::ClusteredSorted
            } else if btree_kind && clustered {
                CreateCommandIndexType::ClusteredBTree
            } else {
                return (None, ServerMessage::InvalidCommand);
            };
            let mut ctx = ctx;
            let column_var = ctx.args.remove(1);
            (Some(CreateCommand::Index { column_var, index_type }), ServerMessage::Okay)
        } else {
            (None, ServerMessage::InvalidCommand)
        }
    }

    /// Dispatches to the engine operation the subkind names; the response
    /// reports that operation's outcome.
    pub fn execute(&self, db: &mut Db, cc: &mut ClientContext) -> (r: ServerMessage)
        requires
            old(db).wf(),
            old(cc).wf(),
        ensures
            final(db).wf(),
            spec_create_post(*self, *old(db), *old(cc), *final(db), *final(cc), r),
    {
        match self {
            CreateCommand::Db { db_name } => {
                let res = db.activate(db_name.as_str());
                let ghost gres = res;
                let out = ServerMessage::of_result(res);
                proof {
                    assert(spec_activate_post(*old(db), *db, db_name@, gres) && out.reports(
                        gres,
                    ));
                }
                out
            },
            CreateCommand::Table { db_var, table_name, n_cols } => {
                let res = db.create_table(db_var.as_str(), table_name.as_str(), *n_cols);
                let ghost gres = res;
                let out = ServerMessage::of_result(res);
                proof {
                    assert(spec_create_table_post(
                        *old(db),
                        *db,
                        db_var@,
                        table_name@,
                        *n_cols,
                        gres,
                    ) && out.reports(gres));
                }
                out
            },
            CreateCommand::Column { table_var, column_name } => {
                let res = db.create_column(table_var.as_str(), column_name.as_str());
                let ghost gres = res;
                let out = ServerMessage::of_result(res);
                proof {
                    assert(spec_create_column_post(
                        *old(db),
                        *db,
                        table_var@,
                        column_name@,
                        gres,
                    ) && out.reports(gres));
                }
                out
            },
            CreateCommand::Index { column_var, index_type } => {
                let res = db.create_index(column_var.as_str(), *index_type);
                let ghost gres = res;
                let out = ServerMessage::of_result(res);
                proof {
                    assert(spec_create_index_post(
                        *old(db),
                        *db,
                        column_var@,
                        *index_type,
                        gres,
                    ) && out.reports(gres));
                }
                out
            },
        }
    }
}

/// The full effect of a create: the session is untouched and the response
/// reports exactly the outcome the named catalog operation's own contract
/// fixes, with the database changed accordingly.
pub open spec fn spec_create_post(
    cmd: CreateCommand,
    db0: Db,
    cc0: ClientContext,
    db1: Db,
    cc1: ClientContext,
    r: ServerMessage,
) -> bool {
    &&& cc1 == cc0
    &&& match cmd {
        CreateCommand::Db { db_name } => exists|res: Result<(), DbError>|
            #[trigger] spec_activate_post(db0, db1, db_name@, res) && r.reports(res),
        CreateCommand::Table { db_var, table_name, n_cols } => db1.name == db0.name && exists|
            res: Result<(), DbError>,
        |
            #[trigger] spec_create_table_post(db0, db1, db_var@, table_name@, n_cols, res)
                && r.reports(res),
        CreateCommand::Column { table_var, column_name } => db1.name == db0.name && exists|
            res: Result<(), DbError>,
        |
            #[trigger] spec_create_column_post(db0, db1, table_var@, column_name@, res)
                && r.reports(res),
        CreateCommand::Index { column_var, index_type } => db1.name == db0.name && exists|
            res: Result<(), DbError>,
        |
            #[trigger] spec_create_index_post(db0, db1, column_var@, index_type, res)
                && r.reports(res),
    }
}

/// The index kind two textual arguments select, if they name one.
pub open spec fn spec_index_kind_of(a: Seq<char>, b: Seq<char>) -> Option<int> {
    if a == "sorted"@ && b == "unclustered"@ {
        Some(1int)
    } else if a == "btree"@ && b == "unclustered"@ {
        Some(2int)
    } else if a == "sorted"@ && b == "clustered"@ {
        Some(3int)
    } else if a == "btree"@ && b == "clustered"@ {
        Some(4int)
    } else {
        None
    }
}

/// The requested index type carries the given kind tag.
pub open spec fn index_type_matches(t: CreateCommandIndexType, k: int) -> bool {
    match t {
        CreateCommandIndexType::NoIndex => k == 0,
        CreateCommandIndexType::UnclusteredSorted => k == 1,
        CreateCommandIndexType::UnclusteredBTree => k == 2,
        CreateCommandIndexType::ClusteredSorted => k == 3,
        CreateCommandIndexType::ClusteredBTree => k == 4,
    }
}

} // verus!
