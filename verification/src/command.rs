//! The eight command kinds: each parses from the split query text and
//! executes against the database and the client context.

use crate::client_context::ClientContext;
use crate::db::Db;
use crate::message::ServerMessage;
use vstd::prelude::*;

pub mod addsub;
pub mod agg;
pub mod create;
pub mod fetch;
pub mod insert;
pub mod join;
pub mod print;
pub mod select;

verus! {

/// A parsed command, ready to execute against the database and the client
/// context. Each variant carries its own exact parse and execution
/// contract; this sum only dispatches.
pub enum Command {
    Addsub(addsub::AddsubCommand),
    Agg(agg::AggCommand),
    Create(create::CreateCommand),
    Fetch(fetch::FetchCommand),
    Insert(insert::InsertCommand),
    Join(join::JoinCommand),
    Print(print::PrintCommand),
    Select(select::SelectCommand),
}

/// The full effect of a command: exactly the post relation of the
/// variant's own execute.
pub open spec fn spec_command_post(
    cmd: Command,
    db0: Db,
    cc0: ClientContext,
    db1: Db,
    cc1: ClientContext,
    r: ServerMessage,
) -> bool {
    match cmd {
        Command::Addsub(c) => addsub::spec_addsub_post(c, db0, cc0, db1, cc1, r),
        Command::Agg(c) => agg::spec_agg_post(c, db0, cc0, db1, cc1, r),
        Command::Create(c) => create::spec_create_post(c, db0, cc0, db1, cc1, r),
        Command::Fetch(c) => fetch::spec_fetch_post(c, db0, cc0, db1, cc1, r),
        Command::Insert(c) => insert::spec_insert_post(c, db0, cc0, db1, cc1, r),
        Command::Join(c) => join::spec_join_post(c, db0, cc0, db1, cc1, r),
        Command::Print(c) => print::spec_print_post(c, db0, cc0, db1, cc1, r),
        Command::Select(c) => select::spec_select_post(c, db0, cc0, db1, cc1, r),
    }
}

impl Command {
    /// Whether the variant's own execution contract applies; print demands
    /// at least one item, which its parse guarantees.
    pub open spec fn executable(&self) -> bool {
        match self {
            Command::Print(c) => c.items@.len() > 0,
            _ => true,
        }
    }

    /// Executes the command; the outcome is the dispatched variant's own
    /// post relation.
    pub fn execute(&self, db: &mut Db, cc: &mut ClientContext) -> (r: ServerMessage)
        requires
            old(db).wf(),
            old(cc).wf(),
            self.executable(),
        ensures
            final(db).wf(),
            final(cc).wf(),
            spec_command_post(*self, *old(db), *old(cc), *final(db), *final(cc), r),
    {
        match self {
            Command::Addsub(c) => c.execute(db, cc),
            Command::Agg(c) => c.execute(db, cc),
            Command::Create(c) => c.execute(db, cc),
            Command::Fetch(c) => c.execute(db, cc),
            Command::Insert(c) => c.execute(db, cc),
            Command::Join(c) => c.execute(db, cc),
            Command::Print(c) => c.execute(db, cc),
            Command::Select(c) => c.execute(db, cc),
        }
    }
}

} // verus!
