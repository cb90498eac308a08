//! The query parser: splits a textual query into handles, a command token
//! and arguments, and resolves dotted variables.

use crate::message::ServerMessage;
use crate::text::{find_from, find_spec, lemma_find_spec, substr};
use vstd::prelude::*;

verus! {

/// The split query a command parses from: its arguments, the output
/// handles before the `=`, and a flag selecting the command's subkind.
pub struct ParserContext {
    pub args: Vec<String>,
    pub handles_str: Option<String>,
    pub flag: u8,
}

/// The split of a table variable `db.table` at its first dot.
pub open spec fn spec_table_var(s: Seq<char>) -> Option<(Seq<char>, Seq<char>)> {
    match find_spec(s, '.') {
        None => None,
        Some(i) => Some((s.take(i), s.skip(i + 1))),
    }
}

/// The split of a column variable `db.table.column` at its first two dots;
/// the column part keeps any further dots.
pub open spec fn spec_column_var(s: Seq<char>) -> Option<(Seq<char>, Seq<char>, Seq<char>)> {
    match find_spec(s, '.') {
        None => None,
        Some(i) => {
            let rest = s.skip(i + 1);
            match find_spec(rest, '.') {
                None => None,
                Some(j) => Some((s.take(i), rest.take(j), rest.skip(j + 1))),
            }
        },
    }
}

/// Whether a column variable is merely missing its column part, so that the
/// failure names the table component rather than the column one.
pub open spec fn spec_column_var_has_table(s: Seq<char>) -> bool {
    find_spec(s, '.') is Some
}

/// Splits `db.table`; the table component is everything past the first dot.
pub fn parse_table_var(table_var: &str) -> (r: Result<(String, String), crate::errors::DbError>)
    ensures
        match r {
            Ok((dbn, tn)) => spec_table_var(table_var@) == Some((dbn@, tn@)),
            Err(e) => spec_table_var(table_var@) is None && e is VarNoTable,
        },
{
    let n = table_var.unicode_len();
    proof {
        lemma_find_spec(table_var@, '.');
    }
    match find_from(table_var, '.', 0) {
        Some(i) => {
            proof {
                match find_spec(table_var@, '.') {
                    Some(f) => {
                        assert(f == i as int);
                    },
                    None => {
                        assert(false);
                    },
                }
            }
            let dbn = substr(table_var, 0, i);
            let tn = substr(table_var, i + 1, n);
            proof {
                assert(table_var@.take(i as int) =~= table_var@.subrange(0, i as int));
                assert(table_var@.skip(i as int + 1) =~= table_var@.subrange(
                    i as int + 1,
                    n as int,
                ));
            }
            Ok((dbn, tn))
        },
        None => {
            proof {
                match find_spec(table_var@, '.') {
                    Some(f) => {
                        assert(table_var@[f] == '.');
                        assert(false);
                    },
                    None => {},
                }
            }
            Err(crate::errors::DbError::VarNoTable)
        },
    }
}

/// Splits `db.table.column`; the column component keeps any further dots.
pub fn parse_column_var(column_var: &str) -> (r: Result<
    (String, String, String),
    crate::errors::DbError,
>)
    ensures
        match r {
            Ok((dbn, tn, cn)) => spec_column_var(column_var@) == Some((dbn@, tn@, cn@)),
            Err(e) => spec_column_var(column_var@) is None && (if spec_column_var_has_table(
                column_var@,
            ) {
                e is VarNoColumn
            } else {
                e is VarNoTable
            }),
        },
{
    let n = column_var.unicode_len();
    proof {
        lemma_find_spec(column_var@, '.');
    }
    match find_from(column_var, '.', 0) {
        Some(i) => {
            proof {
                match find_spec(column_var@, '.') {
                    Some(f) => {
                        assert(f == i as int);
                    },
                    None => {
                        assert(false);
                    },
                }
            }
            let ghost rest = column_var@.skip(i as int + 1);
            proof {
                lemma_find_spec(rest, '.');
                assert(forall|q: int|
                    0 <= q < rest.len() ==> #[trigger] rest[q] == column_var@[i as int + 1 + q]);
            }
            match find_from(column_var, '.', i + 1) {
                Some(j) => {
                    proof {
                        match find_spec(rest, '.') {
                            Some(f) => {
                                assert(rest[j as int - (i as int + 1)] == '.');
                                assert(f == j as int - (i as int + 1));
                            },
                            None => {
                                assert(rest[j as int - (i as int + 1)] == '.');
                                assert(false);
                            },
                        }
                    }
                    let dbn = substr(column_var, 0, i);
                    let tn = substr(column_var, i + 1, j);
                    let cn = substr(column_var, j + 1, n);
                    proof {
                        let f = j as int - (i as int + 1);
                        assert(column_var@.take(i as int) =~= column_var@.subrange(0, i as int));
                        assert(rest.take(f) =~= column_var@.subrange(i as int + 1, j as int));
                        assert(rest.skip(f + 1) =~= column_var@.subrange(j as int + 1, n as int));
                    }
                    Ok((dbn, tn, cn))
                },
                None => {
                    proof {
                        match find_spec(rest, '.') {
                            Some(f) => {
                                assert(column_var@[i as int + 1 + f] == '.');
                                assert(false);
                            },
                            None => {},
                        }
                    }
                    Err(crate::errors::DbError::VarNoColumn)
                },
            }
        },
        None => {
            proof {
                match find_spec(column_var@, '.') {
                    Some(f) => {
                        assert(column_var@[f] == '.');
                        assert(false);
                    },
                    None => {},
                }
            }
            Err(crate::errors::DbError::VarNoTable)
        },
    }
}

/// The trimmed query split at its first `=`: the output handles before it,
/// and the command text after.
pub open spec fn spec_handles_split(q: Seq<char>) -> (Option<Seq<char>>, Seq<char>) {
    match find_spec(q, '=') {
        Some(i) => (Some(q.take(i)), q.skip(i + 1)),
        None => (None, q),
    }
}

/// The command token and its argument text: the command text trimmed,
/// stripped of trailing parentheses, then split at the first `(`.
pub open spec fn spec_cmd_split(s: Seq<char>) -> Option<(Seq<char>, Seq<char>)> {
    let t = crate::text::trim_back_char_spec(crate::text::trim_spec(s), ')');
    match find_spec(t, '(') {
        Some(i) => Some((t.take(i), t.skip(i + 1))),
        None => None,
    }
}

/// The argument list: the argument text split at commas, each piece trimmed.
pub open spec fn spec_args(rest: Seq<char>) -> Seq<Seq<char>> {
    crate::text::split_spec(rest, ',').map_values(|p: Seq<char>| crate::text::trim_spec(p))
}

/// The view of an optional owned string.
pub open spec fn opt_str_view(o: Option<String>) -> Option<Seq<char>> {
    match o {
        Some(s) => Some(s@),
        None => None,
    }
}

/// Whether a token names a command kind the engine knows.
pub open spec fn known_token(tok: Seq<char>) -> bool {
    ||| tok == "add"@
    ||| tok == "sub"@
    ||| tok == "min"@
    ||| tok == "max"@
    ||| tok == "sum"@
    ||| tok == "avg"@
    ||| tok == "create"@
    ||| tok == "fetch"@
    ||| tok == "relational_insert"@
    ||| tok == "join"@
    ||| tok == "print"@
    ||| tok == "select"@
}

/// The command variant a token selects.
pub open spec fn token_matches(tok: Seq<char>, cmd: crate::command::Command) -> bool {
    match cmd {
        crate::command::Command::Addsub(c) => (tok == "add"@ && c.addsub_type.to_flag_spec() == 0)
            || (tok == "sub"@ && c.addsub_type.to_flag_spec() == 1),
        crate::command::Command::Agg(c) => (tok == "min"@ && c.agg_type.to_flag_spec() == 0) || (
        tok == "max"@ && c.agg_type.to_flag_spec() == 1) || (tok == "sum"@
            && c.agg_type.to_flag_spec() == 2) || (tok == "avg"@ && c.agg_type.to_flag_spec()
            == 3),
        crate::command::Command::Create(_) => tok == "create"@,
        crate::command::Command::Fetch(_) => tok == "fetch"@,
        crate::command::Command::Insert(_) => tok == "relational_insert"@,
        crate::command::Command::Join(_) => tok == "join"@,
        crate::command::Command::Print(_) => tok == "print"@,
        crate::command::Command::Select(_) => tok == "select"@,
    }
}

/// Translates a textual query into a command: trims it, recognizes comment
/// lines, splits output handles at `=`, the command token at `(`, and the
/// comma-separated arguments, then hands the pieces to the named command's
/// own parser. Each command's parser carries the exact per-field contract.
/// The whole behavior of the parser: a comment line is silently accepted,
/// a query without parentheses or with an unknown token is rejected, the
/// two unimplemented relational tokens report a clear execution error, and
/// a recognized command's fields are bound to the trimmed decomposition of
/// the query.
pub open spec fn spec_parse_post(
    q_raw: Seq<char>,
    cmd: Option<crate::command::Command>,
    msg: ServerMessage,
) -> bool {
    let q = crate::text::trim_spec(q_raw);
    if q.len() >= 2 && q[0] == '-' && q[1] == '-' {
        cmd is None && msg is Okay
    } else {
        let (handles, cmd_text) = spec_handles_split(q);
        match spec_cmd_split(cmd_text) {
            None => cmd is None && msg is InvalidCommand,
            Some((tok, rest)) => {
                let args = spec_args(rest);
                &&& (cmd is Some <==> msg is Okay)
                &&& (cmd matches Some(c) ==> token_matches(tok, c) && c.executable())
                &&& (!known_token(tok) ==> cmd is None && (if tok == "relational_delete"@
                    || tok == "relational_update"@ {
                    msg is ExecutionError
                } else {
                    msg is InvalidCommand
                }))
                &&& (cmd matches Some(crate::command::Command::Addsub(c)) ==> opt_str_view(
                    c.out,
                ) == handles && c.valvec1_name@ == args[0] && c.valvec2_name@ == args[1])
                &&& (cmd matches Some(crate::command::Command::Agg(c)) ==> opt_str_view(
                    c.out,
                ) == handles && c.valvec_name@ == args[0])
                &&& (cmd matches Some(crate::command::Command::Fetch(c)) ==> opt_str_view(
                    c.out,
                ) == handles && c.valvec_name@ == args[0] && c.posvec_name@ == args[1])
                &&& (cmd matches Some(crate::command::Command::Insert(c)) ==> c.table_var@
                    == args[0] && crate::command::insert::spec_parse_values(args.skip(1))
                    == Some(c.values@))
                &&& (cmd matches Some(crate::command::Command::Join(c)) ==> c.valvec1_name@
                    == args[0] && c.posvec1_name@ == args[1] && c.valvec2_name@ == args[2]
                    && c.posvec2_name@ == args[3])
                &&& (cmd matches Some(crate::command::Command::Print(c)) ==> c.items@.map_values(
                    |x: String| x@,
                ) == args)
                &&& (cmd matches Some(crate::command::Command::Select(c)) ==> opt_str_view(
                    c.out,
                ) == handles && (if args.len() == 3 {
                    c.posvec_name is None && c.valvec_name@ == args[0]
                } else {
                    opt_str_view(c.posvec_name) == Some(args[0]) && c.valvec_name@
                        == args[1]
                }))
            },
        }
    }
}

pub fn parse(query: &str) -> (r: (Option<crate::command::Command>, ServerMessage))
    ensures
        spec_parse_post(query@, r.0, r.1),
{
    proof {
        reveal_strlit("--");
        reveal_strlit("add");
        reveal_strlit("sub");
        reveal_strlit("min");
        reveal_strlit("max");
        reveal_strlit("sum");
        reveal_strlit("avg");
        reveal_strlit("create");
        reveal_strlit("relational_delete");
        reveal_strlit("fetch");
        reveal_strlit("relational_insert");
        reveal_strlit("join");
        reveal_strlit("print");
        reveal_strlit("select");
        reveal_strlit("relational_update");
    }
    let trimmed = crate::text::trim(query);
    let q = trimmed.as_str();
    let qn = q.unicode_len();
    if qn >= 2 && q.get_char(0) == '-' && q.get_char(1) == '-' {
        return (None, ServerMessage::Okay);
    }
    let (handles_str, args_text): (Option<String>, String) = match find_from(q, '=', 0) {
        Some(i) => {
            proof {
                lemma_find_spec(q@, '=');
                match find_spec(q@, '=') {
                    Some(f) => {
                        assert(f == i as int);
                    },
                    None => {
                        assert(false);
                    },
                }
                assert(q@.take(i as int) =~= q@.subrange(0, i as int));
                assert(q@.skip(i as int + 1) =~= q@.subrange(i as int + 1, qn as int));
            }
            (Some(substr(q, 0, i)), substr(q, i + 1, qn))
        },
        None => {
            proof {
                lemma_find_spec(q@, '=');
                match find_spec(q@, '=') {
                    Some(f) => {
                        assert(q@[f] == '=');
                        assert(false);
                    },
                    None => {},
                }
            }
            (None, trimmed)
        },
    };
    let t1 = crate::text::trim(args_text.as_str());
    let t2 = crate::text::trim_back_char(t1.as_str(), ')');
    let t = t2.as_str();
    let tn = t.unicode_len();
    let paren = match find_from(t, '(', 0) {
        Some(i) => i,
        None => {
            proof {
                lemma_find_spec(t@, '(');
                match find_spec(t@, '(') {
                    Some(f) => {
                        assert(t@[f] == '(');
                        assert(false);
                    },
                    None => {},
                }
            }
            return (None, ServerMessage::InvalidCommand);
        },
    };
    proof {
        lemma_find_spec(t@, '(');
        match find_spec(t@, '(') {
            Some(f) => {
                assert(f == paren as int);
            },
            None => {
                assert(false);
            },
        }
        assert(t@.take(paren as int) =~= t@.subrange(0, paren as int));
        assert(t@.skip(paren as int + 1) =~= t@.subrange(paren as int + 1, tn as int));
    }
    let token = substr(t, 0, paren);
    let rest = substr(t, paren + 1, tn);
    let pieces = crate::text::split_all(rest.as_str(), ',');
    let mut args: Vec<String> = Vec::new();
    let mut i: usize = 0;
    while i < pieces.len()
        invariant
            i <= pieces@.len(),
            args@.len() == i,
            forall|j: int|
                0 <= j < i ==> (#[trigger] args@[j])@ == crate::text::trim_spec(pieces@[j]@),
        decreases pieces@.len() - i,
    {
        let piece = crate::text::trim(pieces[i].as_str());
        args.push(piece);
        i = i + 1;
    }
    proof {
        assert(args@.map_values(|s: String| s@) =~= spec_args(rest@));
        assert(args@.map_values(|s: String| s@).skip(1) =~= args@.skip(1).map_values(
            |s: String| s@,
        ));
    }
    let ghost argss = args@;
    let tok = token.as_str();
    if crate::text::str_eq(tok, "add") {
        let ctx = ParserContext { args, handles_str, flag: 0 };
        let (c, m) = crate::command::addsub::AddsubCommand::parse(ctx);
        (wrap_addsub(c), m)
    } else if crate::text::str_eq(tok, "sub") {
        let ctx = ParserContext { args, handles_str, flag: 1 };
        let (c, m) = crate::command::addsub::AddsubCommand::parse(ctx);
        (wrap_addsub(c), m)
    } else if crate::text::str_eq(tok, "min") {
        let ctx = ParserContext { args, handles_str, flag: 0 };
        let (c, m) = crate::command::agg::AggCommand::parse(ctx);
        (wrap_agg(c), m)
    } else if crate::text::str_eq(tok, "max") {
        let ctx = ParserContext { args, handles_str, flag: 1 };
        let (c, m) = crate::command::agg::AggCommand::parse(ctx);
        (wrap_agg(c), m)
    } else if crate::text::str_eq(tok, "sum") {
        let ctx = ParserContext { args, handles_str, flag: 2 };
        let (c, m) = crate::command::agg::AggCommand::parse(ctx);
        (wrap_agg(c), m)
    } else if crate::text::str_eq(tok, "avg") {
        let ctx = ParserContext { args, handles_str, flag: 3 };
        let (c, m) = crate::command::agg::AggCommand::parse(ctx);
        (wrap_agg(c), m)
    } else if crate::text::str_eq(tok, "create") {
        let ctx = ParserContext { args, handles_str, flag: 0 };
        let (c, m) = crate::command::create::CreateCommand::parse(ctx);
        match c {
            Some(c) => (Some(crate::command::Command::Create(c)), m),
            None => (None, m),
        }
    } else if crate::text::str_eq(tok, "relational_delete") {
        (None, ServerMessage::ExecutionError("relational_delete is not implemented".to_owned()))
    } else if crate::text::str_eq(tok, "fetch") {
        let ctx = ParserContext { args, handles_str, flag: 0 };
        let (c, m) = crate::command::fetch::FetchCommand::parse(ctx);
        match c {
            Some(c) => (Some(crate::command::Command::Fetch(c)), m),
            None => (None, m),
        }
    } else if crate::text::str_eq(tok, "relational_insert") {
        let ctx = ParserContext { args, handles_str, flag: 0 };
        let (c, m) = crate::command::insert::InsertCommand::parse(ctx);
        match c {
            Some(c) => (Some(crate::command::Command::Insert(c)), m),
            None => (None, m),
        }
    } else if crate::text::str_eq(tok, "join") {
        let ctx = ParserContext { args, handles_str, flag: 0 };
        let (c, m) = crate::command::join::JoinCommand::parse(ctx);
        match c {
            Some(c) => (Some(crate::command::Command::Join(c)), m),
            None => (None, m),
        }
    } else if crate::text::str_eq(tok, "print") {
        let ctx = ParserContext { args, handles_str, flag: 0 };
        let (c, m) = crate::command::print::PrintCommand::parse(ctx);
        match c {
            Some(c) => (Some(crate::command::Command::Print(c)), m),
            None => (None, m),
        }
    } else if crate::text::str_eq(tok, "select") {
        let ctx = ParserContext { args, handles_str, flag: 0 };
        let (c, m) = crate::command::select::SelectCommand::parse(ctx);
        match c {
            Some(c) => (Some(crate::command::Command::Select(c)), m),
            None => (None, m),
        }
    } else if crate::text::str_eq(tok, "relational_update") {
        (None, ServerMessage::ExecutionError("relational_update is not implemented".to_owned()))
    } else {
        (None, ServerMessage::InvalidCommand)
    }
}

fn wrap_addsub(c: Option<crate::command::addsub::AddsubCommand>) -> (r: Option<
    crate::command::Command,
>)
    ensures
        match c {
            Some(c0) => r matches Some(w) && w == crate::command::Command::Addsub(c0),
            None => r is None,
        },
{
    match c {
        Some(c) => Some(crate::command::Command::Addsub(c)),
        None => None,
    }
}

fn wrap_agg(c: Option<crate::command::agg::AggCommand>) -> (r: Option<crate::command::Command>)
    ensures
        match c {
            Some(c0) => r matches Some(w) && w == crate::command::Command::Agg(c0),
            None => r is None,
        },
{
    match c {
        Some(c) => Some(crate::command::Command::Agg(c)),
        None => None,
    }
}

/// The text between surrounding double quotes, or a parse failure when the
/// quotes are missing.
pub fn trim_quotes(s: &str) -> (r: (String, ServerMessage))
    ensures
        ({
            let well = s@.len() >= 2 && s@[0] == '"' && s@[s@.len() - 1] == '"';
            if well {
                r.1 is Okay && r.0@ == s@.subrange(1, s@.len() - 1)
            } else {
                r.1 is InvalidCommand && r.0@ == Seq::<char>::empty()
            }
        }),
{
    let n = s.unicode_len();
    if n >= 2 && s.get_char(0) == '"' && s.get_char(n - 1) == '"' {
        (substr(s, 1, n - 1), ServerMessage::Okay)
    } else {
        let empty = String::new();
        (empty, ServerMessage::InvalidCommand)
    }
}

} // verus!
