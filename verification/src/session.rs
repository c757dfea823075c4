//! The per-connection state machine's decisions.
//!
//! A connection moves through greeting, registering, active and teardown.
//! The I/O loop outside the library reads frames, drains the mailbox and
//! runs the watchdog; every decision — what a parsed line does to the
//! registry, what is written back, when the connection ends — is taken
//! here, against the registry's contracts.
//!
//! While registering, only `NAME`, `QUIT` and `PONG` are acted on; all
//! else is ignored silently.  Once active, every command is dispatched.

use vstd::prelude::*;
use crate::messages::{IncomingMsg, IncomingView, Message, OutgoingMsg};
use crate::parser::{
    action_wf, lemma_parse_wf, parse_incoming, spec_parse, ActionView, Command, ParsedAction,
};
use crate::server_state::{
    spec_join_room, spec_leave_room, spec_rename_user, spec_say_to_room, spec_say_to_user,
    ServerState, User,
};
use tokio::sync::mpsc::UnboundedSender;

verus! {

/// The `ERROR` line for an unknown user.
pub open spec fn user_unknown_line(n: Seq<char>) -> Seq<char> {
    "ERROR user unknown "@ + n
}

/// The `ERROR` line for a taken user name.
pub open spec fn user_exists_line(n: Seq<char>) -> Seq<char> {
    "ERROR user already exists "@ + n
}

/// The `ERROR` line for an unknown room.
pub open spec fn room_unknown_line(r: Seq<char>) -> Seq<char> {
    "ERROR room unknown "@ + r
}

/// The `ERROR` line for leaving a room one is not in.
pub open spec fn not_in_room_line(u: Seq<char>, r: Seq<char>) -> Seq<char> {
    "ERROR user not in room "@ + u + " "@ + r
}

/// What the registration phase decides for one parsed action.
#[derive(Debug, PartialEq)]
pub enum RegistrationStep {
    /// The name was accepted and the user registered: announce
    /// `REGISTERED` and go active under this name.
    Registered(String),
    /// Write this line to the client and keep waiting.
    Reply(String),
    /// Close the connection; nothing was registered, so there is nothing
    /// to tear down.
    Quit,
    /// A `PONG` arrived: refresh the watchdog.
    Pong,
    /// Nothing to do; keep waiting.
    Stay,
}

/// What the registration phase does with action `a`: a `NAME` is tried
/// against the registry, `QUIT` and `PONG` are honoured, everything else
/// is silently ignored.
pub open spec fn registration_spec(
    pre: ServerState,
    post: ServerState,
    a: ActionView,
    r: RegistrationStep,
) -> bool {
    match a {
        ActionView::Process(IncomingView::Name(n)) => if !pre.has_user(n) {
            &&& r matches RegistrationStep::Registered(got) && got@ == n
            &&& post.user_names() == pre.user_names().push(n)
            &&& post.room_names() == pre.room_names()
            &&& post.user_rooms(n).len() == 0
            &&& post.user_sent(n).len() == 0
            &&& forall|u: Seq<char>|
                u != n && #[trigger] pre.has_user(u) ==> post.user_rooms(u) == pre.user_rooms(u)
                    && post.user_mailbox(u) == pre.user_mailbox(u) && post.user_sent(u)
                    == pre.user_sent(u)
            &&& forall|rm: Seq<char>|
                #[trigger] pre.has_room(rm) ==> post.members(rm) == pre.members(rm)
        } else {
            &&& post == pre
            &&& r matches RegistrationStep::Reply(line) && line@ == user_exists_line(n)
        },
        ActionView::Process(IncomingView::Quit) => post == pre && r is Quit,
        ActionView::Process(IncomingView::Pong) => post == pre && r is Pong,
        ActionView::Process(_) => post == pre && r is Stay,
        ActionView::Error(c, e) => post == pre && if c is Name {
            r matches RegistrationStep::Reply(line) && line@ == e.line_spec()
        } else {
            r is Stay
        },
        ActionView::Ignore => post == pre && r is Stay,
    }
}

/// Decides one step of the registration phase.
pub fn registration_action(
    state: &mut ServerState,
    sender: &UnboundedSender<OutgoingMsg>,
    action: ParsedAction,
) -> (r: RegistrationStep)
    requires
        old(state).wf(),
        action_wf(action@),
    ensures
        final(state).wf(),
        registration_spec(*old(state), *final(state), action@, r),
{
    match action {
        ParsedAction::Process(IncomingMsg::Name(n)) => {
            let user = User::new(sender.clone());
            match state.add_user(n.clone(), user) {
                Ok(()) => RegistrationStep::Registered(n),
                Err(e) => RegistrationStep::Reply(e.to_line()),
            }
        },
        ParsedAction::Process(IncomingMsg::Quit) => RegistrationStep::Quit,
        ParsedAction::Process(IncomingMsg::Pong) => RegistrationStep::Pong,
        ParsedAction::Process(_) => RegistrationStep::Stay,
        ParsedAction::Error(Command::Name, e) => RegistrationStep::Reply(e.to_line()),
        ParsedAction::Error(_, _) => RegistrationStep::Stay,
        ParsedAction::Ignore => RegistrationStep::Stay,
    }
}

/// Parses one line while registering and decides on it.  The parser is
/// total, so every line gets a decision.
pub fn registration_line(
    state: &mut ServerState,
    sender: &UnboundedSender<OutgoingMsg>,
    line: &str,
) -> (r: RegistrationStep)
    requires
        old(state).wf(),
    ensures
        final(state).wf(),
        registration_spec(*old(state), *final(state), spec_parse(line@), r),
{
    let action = parse_incoming(line);
    proof {
        lemma_parse_wf(line@);
    }
    registration_action(state, sender, action)
}

/// What the active phase hands back for one parsed action.
#[derive(Debug, PartialEq)]
pub struct ActiveOutcome {
    /// Lines to write to this client, in order.
    pub lines: Vec<String>,
    /// The connection should move to teardown.
    pub quit: bool,
    /// A `PONG` arrived: refresh the watchdog.
    pub got_pong: bool,
}

/// What one active-phase step does: which registry mutation runs, which
/// lines come back to the issuing client, and whether the session ends.
pub open spec fn active_spec(
    pre: ServerState,
    post: ServerState,
    oldname: Seq<char>,
    newname: Seq<char>,
    a: ActionView,
    out_lines: Seq<Seq<char>>,
    quit: bool,
    pong: bool,
) -> bool {
    match a {
        ActionView::Ignore => post == pre && newname == oldname && out_lines.len() == 0 && !quit
            && !pong,
        ActionView::Error(_c, e) => post == pre && newname == oldname && out_lines == seq![
            e.line_spec(),
        ] && !quit && !pong,
        ActionView::Process(m) => match m {
            IncomingView::Quit => post == pre && newname == oldname && out_lines.len() == 0
                && quit && !pong,
            IncomingView::Pong => post == pre && newname == oldname && out_lines.len() == 0
                && !quit && pong,
            IncomingView::Name(n) => {
                &&& !quit
                &&& !pong
                &&& if pre.has_user(oldname) && !pre.has_user(n) {
                    &&& spec_rename_user(pre, post, oldname, n)
                    &&& newname == n
                    &&& out_lines.len() == 0
                } else {
                    &&& post == pre
                    &&& newname == oldname
                    &&& out_lines == seq![
                        if !pre.has_user(oldname) {
                            user_unknown_line(oldname)
                        } else {
                            user_exists_line(n)
                        },
                    ]
                }
            },
            IncomingView::Join(rm) => {
                &&& !quit
                &&& !pong
                &&& newname == oldname
                &&& if pre.has_user(oldname) {
                    spec_join_room(pre, post, rm, oldname) && out_lines.len() == 0
                } else {
                    post == pre && out_lines == seq![user_unknown_line(oldname)]
                }
            },
            IncomingView::Leave(rm) => {
                &&& !quit
                &&& !pong
                &&& newname == oldname
                &&& if pre.has_room(rm) && pre.members(rm).contains(oldname) {
                    spec_leave_room(pre, post, rm, oldname) && out_lines.len() == 0
                } else {
                    &&& post == pre
                    &&& out_lines == seq![
                        if !pre.has_room(rm) {
                            room_unknown_line(rm)
                        } else {
                            not_in_room_line(oldname, rm)
                        },
                    ]
                }
            },
            IncomingView::SayRoom(rm, t) => {
                &&& !quit
                &&& !pong
                &&& newname == oldname
                &&& if pre.has_room(rm) {
                    &&& spec_say_to_room(pre, post, oldname, rm, t)
                    &&& out_lines.len() == 0
                } else {
                    &&& post == pre
                    &&& out_lines == seq![room_unknown_line(rm)]
                }
            },
            IncomingView::SayUser(to, t) => {
                &&& !quit
                &&& !pong
                &&& newname == oldname
                &&& if pre.has_user(to) {
                    &&& spec_say_to_user(pre, post, oldname, to, t)
                    &&& out_lines.len() == 0
                } else {
                    &&& post == pre
                    &&& out_lines == seq![user_unknown_line(to)]
                }
            },
            IncomingView::Rooms => {
                &&& !quit
                &&& !pong
                &&& newname == oldname
                &&& post == pre
                &&& out_lines.len() == pre.room_names().len()
                &&& forall|k: int|
                    0 <= k < out_lines.len() ==> out_lines[k] == "ROOM "@
                        + pre.room_names()[k]
            },
            IncomingView::Users(rm) => {
                &&& !quit
                &&& !pong
                &&& newname == oldname
                &&& post == pre
                &&& if pre.has_room(rm) {
                    &&& out_lines.len() == pre.members(rm).len()
                    &&& forall|k: int|
                        0 <= k < out_lines.len() ==> out_lines[k] == "USER "@ + pre.members(
                            rm,
                        )[k]
                } else {
                    out_lines == seq![room_unknown_line(rm)]
                }
            },
        },
    }
}

/// Decides one step of the active phase: dispatches the action against the
/// registry under the connection's current `name`, updating it on a
/// successful rename.
pub fn active_action(state: &mut ServerState, name: &mut String, action: ParsedAction) -> (r:
    ActiveOutcome)
    requires
        old(state).wf(),
        action_wf(action@),
    ensures
        final(state).wf(),
        active_spec(
            *old(state),
            *final(state),
            old(name)@,
            final(name)@,
            action@,
            r.lines.deep_view(),
            r.quit,
            r.got_pong,
        ),
{
    let no_lines: Vec<String> = Vec::new();
    proof {
        assert(no_lines.deep_view() =~= Seq::<Seq<char>>::empty());
    }
    match action {
        ParsedAction::Ignore => ActiveOutcome { lines: no_lines, quit: false, got_pong: false },
        ParsedAction::Error(_, e) => {
            let mut lines = no_lines;
            lines.push(e.to_line());
            proof {
                assert(lines.deep_view() =~= seq![e.line_spec()]);
            }
            ActiveOutcome { lines, quit: false, got_pong: false }
        },
        ParsedAction::Process(IncomingMsg::Quit) => ActiveOutcome {
            lines: no_lines,
            quit: true,
            got_pong: false,
        },
        ParsedAction::Process(IncomingMsg::Pong) => ActiveOutcome {
            lines: no_lines,
            quit: false,
            got_pong: true,
        },
        ParsedAction::Process(IncomingMsg::Name(n)) => {
            match state.rename_user(name.as_str(), n.as_str()) {
                Ok(()) => {
                    *name = n;
                    ActiveOutcome { lines: no_lines, quit: false, got_pong: false }
                },
                Err(e) => {
                    let mut lines = no_lines;
                    lines.push(e.to_line());
                    proof {
                        assert(lines.deep_view() =~= seq![e.line_spec()]);
                    }
                    ActiveOutcome { lines, quit: false, got_pong: false }
                },
            }
        },
        ParsedAction::Process(IncomingMsg::Join(room)) => {
            match state.join_room(room, name.clone()) {
                Ok(()) => ActiveOutcome { lines: no_lines, quit: false, got_pong: false },
                Err(e) => {
                    let mut lines = no_lines;
                    lines.push(e.to_line());
                    proof {
                        assert(lines.deep_view() =~= seq![e.line_spec()]);
                    }
                    ActiveOutcome { lines, quit: false, got_pong: false }
                },
            }
        },
        ParsedAction::Process(IncomingMsg::Leave(room)) => {
            match state.leave_room(room.as_str(), name.as_str()) {
                Ok(()) => ActiveOutcome { lines: no_lines, quit: false, got_pong: false },
                Err(e) => {
                    let mut lines = no_lines;
                    lines.push(e.to_line());
                    proof {
                        assert(lines.deep_view() =~= seq![e.line_spec()]);
                    }
                    ActiveOutcome { lines, quit: false, got_pong: false }
                },
            }
        },
        ParsedAction::Process(IncomingMsg::SayRoom(room, text)) => {
            match state.say_to_room(name.as_str(), room.as_str(), text) {
                Ok(()) => ActiveOutcome { lines: no_lines, quit: false, got_pong: false },
                Err(e) => {
                    let mut lines = no_lines;
                    lines.push(e.to_line());
                    proof {
                        assert(lines.deep_view() =~= seq![e.line_spec()]);
                    }
                    ActiveOutcome { lines, quit: false, got_pong: false }
                },
            }
        },
        ParsedAction::Process(IncomingMsg::SayUser(to, text)) => {
            match state.say_to_user(name.as_str(), to.as_str(), text) {
                Ok(()) => ActiveOutcome { lines: no_lines, quit: false, got_pong: false },
                Err(e) => {
                    let mut lines = no_lines;
                    lines.push(e.to_line());
                    proof {
                        assert(lines.deep_view() =~= seq![e.line_spec()]);
                    }
                    ActiveOutcome { lines, quit: false, got_pong: false }
                },
            }
        },
        ParsedAction::Process(IncomingMsg::Rooms) => {
            let names = state.rooms();
            let ghost rl = names.deep_view();
            let mut lines: Vec<String> = no_lines;
            let mut k: usize = 0;
            while k < names.len()
                invariant
                    0 <= k <= names.len(),
                    rl == names.deep_view(),
                    lines.deep_view().len() == k,
                    forall|t: int|
                        0 <= t < k ==> lines.deep_view()[t] == "ROOM "@ + rl[t],
                decreases names.len() - k,
            {
                let ghost prev = lines.deep_view();
                let line = OutgoingMsg::Room(names[k].clone()).to_line();
                lines.push(line);
                proof {
                    assert(lines.deep_view() =~= prev.push("ROOM "@ + rl[k as int]));
                }
                k += 1;
            }
            ActiveOutcome { lines, quit: false, got_pong: false }
        },
        ParsedAction::Process(IncomingMsg::Users(room)) => {
            match state.users(room.as_str()) {
                Ok(members) => {
                    let ghost ml = members.deep_view();
                    let mut lines: Vec<String> = no_lines;
                    let mut k: usize = 0;
                    while k < members.len()
                        invariant
                            0 <= k <= members.len(),
                            ml == members.deep_view(),
                            lines.deep_view().len() == k,
                            forall|t: int|
                                0 <= t < k ==> lines.deep_view()[t] == "USER "@ + ml[t],
                        decreases members.len() - k,
                    {
                        let ghost prev = lines.deep_view();
                        let line = OutgoingMsg::User(members[k].clone()).to_line();
                        lines.push(line);
                        proof {
                            assert(lines.deep_view() =~= prev.push("USER "@ + ml[k as int]));
                        }
                        k += 1;
                    }
                    ActiveOutcome { lines, quit: false, got_pong: false }
                },
                Err(e) => {
                    let mut lines = no_lines;
                    lines.push(e.to_line());
                    proof {
                        assert(lines.deep_view() =~= seq![e.line_spec()]);
                    }
                    ActiveOutcome { lines, quit: false, got_pong: false }
                },
            }
        },
    }
}

/// Parses one line in the active phase and dispatches it.
pub fn active_line(state: &mut ServerState, name: &mut String, line: &str) -> (r: ActiveOutcome)
    requires
        old(state).wf(),
    ensures
        final(state).wf(),
        active_spec(
            *old(state),
            *final(state),
            old(name)@,
            final(name)@,
            spec_parse(line@),
            r.lines.deep_view(),
            r.quit,
            r.got_pong,
        ),
{
    let action = parse_incoming(line);
    proof {
        lemma_parse_wf(line@);
    }
    active_action(state, name, action)
}

} // verus!
