//! One request against the engine: the special control commands, then the
//! parse-and-execute pipeline. The caller owns the transport; this module
//! computes the response and whether a shutdown was requested.

use crate::client_context::ClientContext;
use crate::db::Db;
use crate::message::ServerMessage;
use crate::threads::{is_multi_threaded, set_multi_threaded, ThreadsFlag};
use vstd::prelude::*;

verus! {

/// Handles one textual query: `shutdown` requests termination, the
/// single-core toggles flip the process-wide parallelism flag, and
/// everything else runs through parse and execute.
pub fn process_command(query: &str, db: &mut Db, cc: &mut ClientContext, flag: &mut ThreadsFlag)
    -> (r: (ServerMessage, bool))
    requires
        old(db).wf(),
        old(cc).wf(),
    ensures
        final(db).wf(),
        final(cc).wf(),
        r.1 <==> query@ == "shutdown"@,
        query@ == "shutdown"@ ==> r.0 is OkTerminate && *final(db) == *old(db) && *final(cc)
            == *old(cc) && *final(flag) == *old(flag),
        query@ == "single_core()"@ ==> *final(db) == *old(db) && *final(cc) == *old(cc) && (if old(
            flag,
        ).multi_threaded {
            !final(flag).multi_threaded && r.0 is Okay
        } else {
            *final(flag) == *old(flag) && r.0 is ExecutionError
        }),
        query@ == "single_core_execute()"@ ==> *final(db) == *old(db) && *final(cc) == *old(cc)
            && (if !old(flag).multi_threaded {
            final(flag).multi_threaded && r.0 is Okay
        } else {
            *final(flag) == *old(flag) && r.0 is ExecutionError
        }),
        !(query@ == "shutdown"@ || query@ == "single_core()"@ || query@
            == "single_core_execute()"@) ==> *final(flag) == *old(flag) && exists|
            cmd: Option<crate::command::Command>,
            msg: ServerMessage,
        |
            #[trigger] crate::parse::spec_parse_post(query@, cmd, msg) && match (cmd, msg) {
                (Some(c), ServerMessage::Okay) => crate::command::spec_command_post(
                    c,
                    *old(db),
                    *old(cc),
                    *final(db),
                    *final(cc),
                    r.0,
                ),
                (None, ServerMessage::Okay) => r.0 is Okay && *final(db) == *old(db) && *final(cc) == *old(cc),
                (_, m) => r.0 == m && *final(db) == *old(db) && *final(cc) == *old(cc),
            },
{
    proof {
        reveal_strlit("shutdown");
        reveal_strlit("single_core()");
        reveal_strlit("single_core_execute()");
        assert("shutdown"@.len() == 8);
        assert("single_core()"@.len() == 13);
        assert("single_core_execute()"@.len() == 21);
    }
    if crate::text::str_eq(query, "shutdown") {
        return (ServerMessage::OkTerminate, true);
    }
    if crate::text::str_eq(query, "single_core()") {
        if !is_multi_threaded(flag) {
            return (
                ServerMessage::ExecutionError("Already in single-core mode".to_owned()),
                false,
            );
        }
        set_multi_threaded(flag, false);
        return (ServerMessage::Okay, false);
    }
    if crate::text::str_eq(query, "single_core_execute()") {
        if is_multi_threaded(flag) {
            return (ServerMessage::ExecutionError("Not in single-core mode".to_owned()), false);
        }
        set_multi_threaded(flag, true);
        return (ServerMessage::Okay, false);
    }
    let (cmd, msg) = crate::parse::parse(query);
    let ghost gcmd = cmd;
    let ghost gmsg = msg;
    match (cmd, msg) {
        (None, ServerMessage::Okay) => (ServerMessage::Okay, false),
        (Some(command), ServerMessage::Okay) => {
            let out = command.execute(db, cc);
            proof {
                assert(crate::parse::spec_parse_post(query@, gcmd, gmsg));
                assert(crate::command::spec_command_post(
                    command,
                    *old(db),
                    *old(cc),
                    *db,
                    *cc,
                    out,
                ));
            }
            (out, false)
        },
        (_, message) => (message, false),
    }
}

} // verus!
