//! The line protocol: parsing one request line into a command, carrying the
//! command out against the manager, and framing the one response line.

use vstd::prelude::*;
use crate::manager::{
    SessionManager, base_reflects, auth_ok, auth_step, upd_step, del_step, fresh_user, wrap_incr,
};
use crate::session::SessionData;
use crate::text::hex_of_byte;
use crate::tokens::{tokens_of, views_of, split_tokens};
use crate::user::{spec_is_deleted, valid_token};
use crate::{MAX_NOW, SESSION_PERIOD};

verus! {

/// One parsed request. Missing arguments default to the empty string, as
/// the wire format's permissiveness asks.
pub enum Command {
    Auth { name: String, pass: String },
    Login { name: String, pass: String },
    Session { token: String },
    Logout { token: String },
    Create { name: String, pass: String },
    Update { name: String, pass: String },
    Delete { name: String },
    Save,
    Unknown,
}

/// The `i`-th token, or the empty string when there are fewer.
pub open spec fn arg(ts: Seq<Seq<char>>, i: int) -> Seq<char> {
    if i < ts.len() {
        ts[i]
    } else {
        Seq::empty()
    }
}

/// Whether a command is the reading of a (nonempty) token list.
pub open spec fn command_matches(cmd: Command, ts: Seq<Seq<char>>) -> bool {
    match cmd {
        Command::Auth { name, pass } => ts[0] == "AUTH"@ && name@ == arg(ts, 1) && pass@ == arg(
            ts,
            2,
        ),
        Command::Login { name, pass } => ts[0] == "LOGIN"@ && name@ == arg(ts, 1) && pass@ == arg(
            ts,
            2,
        ),
        Command::Session { token } => ts[0] == "SESSION"@ && token@ == arg(ts, 1),
        Command::Logout { token } => ts[0] == "LOGOUT"@ && token@ == arg(ts, 1),
        Command::Create { name, pass } => ts[0] == "CREATE"@ && name@ == arg(ts, 1) && pass@
            == arg(ts, 2),
        Command::Update { name, pass } => ts[0] == "UPDATE"@ && name@ == arg(ts, 1) && pass@
            == arg(ts, 2),
        Command::Delete { name } => ts[0] == "DELETE"@ && name@ == arg(ts, 1),
        Command::Save => ts[0] == "SAVE"@,
        Command::Unknown => ts[0] != "AUTH"@ && ts[0] != "LOGIN"@ && ts[0] != "SESSION"@ && ts[0]
            != "LOGOUT"@ && ts[0] != "CREATE"@ && ts[0] != "UPDATE"@ && ts[0] != "DELETE"@ && ts[0]
            != "SAVE"@,
    }
}

/// The name a command looks up in the store, if it consults the store.
pub open spec fn command_subject(cmd: Command) -> Option<Seq<char>> {
    match cmd {
        Command::Auth { name, pass } => Some(name@),
        Command::Login { name, pass } => Some(name@),
        Command::Create { name, pass } => Some(name@),
        Command::Update { name, pass } => Some(name@),
        Command::Delete { name } => Some(name@),
        Command::Session { token } => None,
        Command::Logout { token } => None,
        Command::Save => None,
        Command::Unknown => None,
    }
}

/// Parse one request line: the first whitespace-separated token selects the
/// command, the following tokens are its arguments, missing ones default to
/// the empty string. A line with no token at all draws no response.
pub fn parse_command(line: &str) -> (r: Option<Command>)
    ensures
        match r {
            None => tokens_of(line@).len() == 0,
            Some(cmd) => tokens_of(line@).len() > 0 && command_matches(cmd, tokens_of(line@)),
        },
{
    let ts = split_tokens(line);
    proof {
        assert(views_of(ts@).len() == ts@.len());
    }
    if ts.len() == 0 {
        return None;
    }
    let cmd: &str = ts[0].as_str();
    let arg1: String = if ts.len() > 1 {
        ts[1].clone()
    } else {
        String::new()
    };
    let arg2: String = if ts.len() > 2 {
        ts[2].clone()
    } else {
        String::new()
    };
    proof {
        if ts@.len() > 1 {
            assert(views_of(ts@)[1] == ts@[1]@);
        }
        if ts@.len() > 2 {
            assert(views_of(ts@)[2] == ts@[2]@);
        }
        assert(views_of(ts@)[0] == ts@[0]@);
    }
    if crate::text::str_eq(cmd, "AUTH") {
        Some(Command::Auth { name: arg1, pass: arg2 })
    } else if crate::text::str_eq(cmd, "LOGIN") {
        Some(Command::Login { name: arg1, pass: arg2 })
    } else if crate::text::str_eq(cmd, "SESSION") {
        Some(Command::Session { token: arg1 })
    } else if crate::text::str_eq(cmd, "LOGOUT") {
        Some(Command::Logout { token: arg1 })
    } else if crate::text::str_eq(cmd, "CREATE") {
        Some(Command::Create { name: arg1, pass: arg2 })
    } else if crate::text::str_eq(cmd, "UPDATE") {
        Some(Command::Update { name: arg1, pass: arg2 })
    } else if crate::text::str_eq(cmd, "DELETE") {
        Some(Command::Delete { name: arg1 })
    } else if crate::text::str_eq(cmd, "SAVE") {
        Some(Command::Save)
    } else {
        Some(Command::Unknown)
    }
}

/// The success line without an argument.
pub open spec fn ok_line() -> Seq<char> {
    "OK\r\n"@
}

/// The success line carrying an argument.
pub open spec fn ok_arg_line(a: Seq<char>) -> Seq<char> {
    "OK "@ + a + "\r\n"@
}

/// The failure line carrying a reason.
pub open spec fn err_line(msg: Seq<char>) -> Seq<char> {
    "NG "@ + msg + "\r\n"@
}

/// The line answering an unknown command.
pub open spec fn error_line() -> Seq<char> {
    "ERROR\r\n"@
}

/// Frame a bare success response.
pub fn response_ok() -> (r: String)
    ensures
        r@ == ok_line(),
{
    String::from_str("OK\r\n")
}

/// Frame a success response carrying an argument.
pub fn response_ok_arg(a: &str) -> (r: String)
    ensures
        r@ == ok_arg_line(a@),
{
    let mut r = String::from_str("OK ");
    r.append(a);
    r.append("\r\n");
    proof {
        assert(r@ =~= ok_arg_line(a@));
    }
    r
}

/// Frame a failure response carrying a reason.
pub fn response_err(msg: &str) -> (r: String)
    ensures
        r@ == err_line(msg@),
{
    let mut r = String::from_str("NG ");
    r.append(msg);
    r.append("\r\n");
    proof {
        assert(r@ =~= err_line(msg@));
    }
    r
}

/// Frame the answer to an unknown command.
pub fn response_error() -> (r: String)
    ensures
        r@ == error_line(),
{
    String::from_str("ERROR\r\n")
}

/// What carrying a command out does: either one response line, or the
/// instruction to run the save pipeline (whose response depends on its
/// file work).
pub enum Step {
    Reply(String),
    RunSave,
}

/// The contract of [`dispatch`], command by command: which manager
/// operation runs, how its outcome is framed, and what changes.
pub open spec fn dispatch_spec(
    pre: SessionManager,
    post: SessionManager,
    cmd: Command,
    base: Option<String>,
    now: i64,
    r: Step,
) -> bool {
    &&& post.dir == pre.dir
    &&& post.path_users_cdb == pre.path_users_cdb
    &&& post.disk == pre.disk
    &&& match cmd {
        Command::Auth { name, pass } => {
            let ok = match pre.lookup(name@, base) {
                Some(u) => auth_ok(u, pass@),
                None => false,
            };
            &&& (match r {
                Step::Reply(s) => s@ == if ok {
                    ok_line()
                } else {
                    err_line("Authentication failed."@)
                },
                Step::RunSave => false,
            })
            &&& post.sessions == pre.sessions
            &&& post.seqno == pre.seqno
            &&& (match pre.lookup(name@, base) {
                Some(u) => SessionManager::tiers_after(
                    pre,
                    post,
                    name@,
                    base,
                    auth_step(u, pass@, now, false),
                ),
                None => post.created_users@ == pre.created_users@ && post.updated_users@
                    == pre.updated_users@,
            })
        },
        Command::Login { name, pass } => {
            let ok = match pre.lookup(name@, base) {
                Some(u) => auth_ok(u, pass@),
                None => false,
            };
            &&& (match r {
                Step::Reply(s) => if ok {
                    exists|t: Seq<char>|
                        {
                            &&& t.len() == 32
                            &&& #[trigger] s@ == ok_arg_line(t)
                            &&& t.subrange(30, 32) == hex_of_byte(wrap_incr(pre.seqno))
                            &&& post.sessions@ == pre.sessions@.insert(
                                t,
                                SessionData { name: name@, last_accessed: now },
                            )
                        }
                } else {
                    s@ == err_line("Login failed."@) && post.sessions == pre.sessions
                        && post.seqno == pre.seqno
                },
                Step::RunSave => false,
            })
            &&& (match pre.lookup(name@, base) {
                Some(u) => SessionManager::tiers_after(
                    pre,
                    post,
                    name@,
                    base,
                    auth_step(u, pass@, now, true),
                ),
                None => post.created_users@ == pre.created_users@ && post.updated_users@
                    == pre.updated_users@,
            })
        },
        Command::Session { token } => {
            &&& post.created_users == pre.created_users
            &&& post.updated_users == pre.updated_users
            &&& post.seqno == pre.seqno
            &&& (match r {
                Step::Reply(s) => if pre.sessions@.contains_key(token@)
                    && pre.sessions@[token@].last_accessed + SESSION_PERIOD > now {
                    s@ == ok_arg_line(pre.sessions@[token@].name) && post.sessions@
                        == pre.sessions@.insert(
                        token@,
                        SessionData { name: pre.sessions@[token@].name, last_accessed: now },
                    )
                } else {
                    s@ == err_line("Session not found."@) && post.sessions@ == pre.sessions@
                },
                Step::RunSave => false,
            })
        },
        Command::Logout { token } => {
            &&& post.created_users == pre.created_users
            &&& post.updated_users == pre.updated_users
            &&& post.seqno == pre.seqno
            &&& (match r {
                Step::Reply(s) => if pre.sessions@.contains_key(token@) {
                    s@ == ok_arg_line(pre.sessions@[token@].name) && post.sessions@
                        == pre.sessions@.remove(token@)
                } else {
                    s@ == err_line("Session not found."@) && post.sessions@ == pre.sessions@
                },
                Step::RunSave => false,
            })
        },
        Command::Create { name, pass } => {
            let ok = valid_token(name@) && valid_token(pass@) && !pre.created_users@.contains_key(
                name@,
            ) && !pre.updated_users@.contains_key(name@) && (base matches None);
            &&& (match r {
                Step::Reply(s) => if ok {
                    exists|t: Seq<char>|
                        {
                            &&& t.len() == 32
                            &&& #[trigger] s@ == ok_arg_line(t)
                            &&& t.subrange(30, 32) == hex_of_byte(wrap_incr(pre.seqno))
                            &&& post.sessions@ == pre.sessions@.insert(
                                t,
                                SessionData { name: name@, last_accessed: now },
                            )
                            &&& post.created_users@ == pre.created_users@.insert(
                                name@,
                                fresh_user(name@, pass@, now),
                            )
                            &&& post.updated_users@ == pre.updated_users@
                        }
                } else {
                    {
                        &&& s@ == err_line(
                            if valid_token(name@) && valid_token(pass@) {
                                "User already exists."@
                            } else {
                                "Invalid name."@
                            },
                        )
                        &&& post.sessions == pre.sessions
                        &&& post.created_users == pre.created_users
                        &&& post.updated_users == pre.updated_users
                        &&& post.seqno == pre.seqno
                    }
                },
                Step::RunSave => false,
            })
        },
        Command::Update { name, pass } => {
            let ok = valid_token(pass@) && (match pre.lookup(name@, base) {
                Some(u) => pre.created_users@.contains_key(name@) || !spec_is_deleted(u),
                None => false,
            });
            &&& post.sessions == pre.sessions
            &&& post.seqno == pre.seqno
            &&& (match r {
                Step::Reply(s) => if ok {
                    s@ == ok_line() && (match pre.lookup(name@, base) {
                        Some(u) => SessionManager::tiers_after(
                            pre,
                            post,
                            name@,
                            base,
                            upd_step(u, pass@, now),
                        ),
                        None => false,
                    })
                } else {
                    {
                        &&& s@ == err_line(
                            if valid_token(pass@) {
                                "User not found."@
                            } else {
                                "Invalid name."@
                            },
                        )
                        &&& post.created_users == pre.created_users
                        &&& post.updated_users == pre.updated_users
                    }
                },
                Step::RunSave => false,
            })
        },
        Command::Delete { name } => {
            let ok = match pre.lookup(name@, base) {
                Some(u) => pre.created_users@.contains_key(name@) || !spec_is_deleted(u),
                None => false,
            };
            &&& post.sessions == pre.sessions
            &&& post.seqno == pre.seqno
            &&& (match r {
                Step::Reply(s) => if ok {
                    s@ == ok_line() && (if pre.created_users@.contains_key(name@) {
                        post.created_users@ == pre.created_users@.remove(name@)
                            && post.updated_users@ == pre.updated_users@
                    } else {
                        match pre.lookup(name@, base) {
                            Some(u) => post.created_users@ == pre.created_users@
                                && post.updated_users@ == pre.updated_users@.insert(
                                name@,
                                del_step(u, now),
                            ),
                            None => false,
                        }
                    })
                } else {
                    s@ == err_line("User not found."@) && post.created_users == pre.created_users
                        && post.updated_users == pre.updated_users
                },
                Step::RunSave => false,
            })
        },
        Command::Save => {
            &&& (r matches Step::RunSave)
            &&& post.sessions == pre.sessions
            &&& post.created_users == pre.created_users
            &&& post.updated_users == pre.updated_users
            &&& post.seqno == pre.seqno
        },
        Command::Unknown => {
            &&& (match r {
                Step::Reply(s) => s@ == error_line(),
                Step::RunSave => false,
            })
            &&& post.sessions == pre.sessions
            &&& post.created_users == pre.created_users
            &&& post.updated_users == pre.updated_users
            &&& post.seqno == pre.seqno
        },
    }
}

/// Carry one command out against the manager and frame the response; a
/// `SAVE` is handed back for the caller to run the file pipeline.
pub fn dispatch(m: &mut SessionManager, cmd: Command, base: Option<String>, now: i64) -> (r: Step)
    requires
        old(m).inv(),
        0 <= now <= MAX_NOW,
        match command_subject(cmd) {
            Some(n) => base_reflects(old(m).disk@, n, base),
            None => true,
        },
    ensures
        final(m).inv(),
        dispatch_spec(*old(m), *final(m), cmd, base, now, r),
{
    match cmd {
        Command::Auth { name, pass } => {
            match m.auth(name.as_str(), pass.as_str(), base, now) {
                Ok(_) => Step::Reply(response_ok()),
                Err(e) => Step::Reply(response_err(e)),
            }
        },
        Command::Login { name, pass } => {
            match m.login(name.as_str(), pass.as_str(), base, now) {
                Ok(t) => {
                    let reply = response_ok_arg(t.as_str());
                    proof {
                        assert(t@.len() == 32 && reply@ == ok_arg_line(t@));
                    }
                    Step::Reply(reply)
                },
                Err(e) => Step::Reply(response_err(e)),
            }
        },
        Command::Session { token } => {
            match m.is_logged_in(token.as_str(), now) {
                Ok(s) => Step::Reply(response_ok_arg(s.name.as_str())),
                Err(e) => Step::Reply(response_err(e)),
            }
        },
        Command::Logout { token } => {
            match m.logout(token.as_str()) {
                Ok(s) => Step::Reply(response_ok_arg(s.name.as_str())),
                Err(e) => Step::Reply(response_err(e)),
            }
        },
        Command::Create { name, pass } => {
            match m.create_user(name.as_str(), pass.as_str(), base, now) {
                Ok(t) => {
                    let reply = response_ok_arg(t.as_str());
                    proof {
                        assert(t@.len() == 32 && reply@ == ok_arg_line(t@));
                    }
                    Step::Reply(reply)
                },
                Err(e) => Step::Reply(response_err(e)),
            }
        },
        Command::Update { name, pass } => {
            match m.update_user(name.as_str(), pass.as_str(), base, now) {
                Ok(_) => Step::Reply(response_ok()),
                Err(e) => Step::Reply(response_err(e)),
            }
        },
        Command::Delete { name } => {
            match m.delete_user(name.as_str(), base, now) {
                Ok(_) => Step::Reply(response_ok()),
                Err(e) => Step::Reply(response_err(e)),
            }
        },
        Command::Save => Step::RunSave,
        Command::Unknown => Step::Reply(response_error()),
    }
}

} // verus!
