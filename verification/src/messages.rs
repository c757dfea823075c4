//! [`OutgoingMsg`] and [`IncomingMsg`] codify the messages that are sent
//! between clients and the server, as defined by the chat protocol.  Each
//! message prints as exactly one line on the wire; [`Message::to_line`]
//! produces that line and [`Message::line_spec`] pins it down.

use vstd::prelude::*;
use crate::names::{valid_room_name, valid_user_name};

verus! {

/// A piece of data that can travel between a client and the server as one
/// newline-delimited line.
pub trait Message {
    /// The exact line this value prints as.
    spec fn line_spec(&self) -> Seq<char>;

    /// Formats the value as its wire line.
    fn to_line(&self) -> (r: String)
        ensures
            r@ == self.line_spec(),
    ;
}

/// Messages that the server sends to clients.
#[derive(Debug, PartialEq, Clone)]
pub enum OutgoingMsg {
    /// PING
    Ping,
    /// CONNECTED
    Connected,
    /// REGISTERED
    Registered,
    /// SAID from message
    SaidUser(String, String),
    /// SAID room-name from message
    SaidRoom(String, String, String),
    /// ROOM room-name
    Room(String),
    /// USER user-name
    User(String),
    /// JOINED room-name user-name
    Joined(String, String),
    /// LEFT room-name user-name
    Left(String, String),
}

impl Message for OutgoingMsg {
    open spec fn line_spec(&self) -> Seq<char> {
        match self {
            OutgoingMsg::Ping => "PING"@,
            OutgoingMsg::Connected => "CONNECTED"@,
            OutgoingMsg::Registered => "REGISTERED"@,
            OutgoingMsg::SaidUser(from, message) => from@ + " SAID "@ + message@,
            OutgoingMsg::SaidRoom(room, from, message) => room@ + " "@ + from@ + " SAID "@
                + message@,
            OutgoingMsg::Room(room) => "ROOM "@ + room@,
            OutgoingMsg::User(name) => "USER "@ + name@,
            OutgoingMsg::Joined(room, user) => room@ + " "@ + user@ + " JOINED"@,
            OutgoingMsg::Left(room, user) => room@ + " "@ + user@ + " LEFT"@,
        }
    }

    fn to_line(&self) -> (r: String) {
        match self {
            OutgoingMsg::Ping => "PING".to_owned(),
            OutgoingMsg::Connected => "CONNECTED".to_owned(),
            OutgoingMsg::Registered => "REGISTERED".to_owned(),
            OutgoingMsg::SaidUser(from, message) => {
                let mut s = from.clone();
                s.append(" SAID ");
                s.append(message.as_str());
                s
            },
            OutgoingMsg::SaidRoom(room, from, message) => {
                let mut s = room.clone();
                s.append(" ");
                s.append(from.as_str());
                s.append(" SAID ");
                s.append(message.as_str());
                s
            },
            OutgoingMsg::Room(room) => {
                let mut s = "ROOM ".to_owned();
                s.append(room.as_str());
                s
            },
            OutgoingMsg::User(name) => {
                let mut s = "USER ".to_owned();
                s.append(name.as_str());
                s
            },
            OutgoingMsg::Joined(room, user) => {
                let mut s = room.clone();
                s.append(" ");
                s.append(user.as_str());
                s.append(" JOINED");
                s
            },
            OutgoingMsg::Left(room, user) => {
                let mut s = room.clone();
                s.append(" ");
                s.append(user.as_str());
                s.append(" LEFT");
                s
            },
        }
    }
}

/// The mathematical shape of an outgoing message: the same variants as
/// [`OutgoingMsg`], over character sequences.  The registry's per-user
/// send logs record values of this shape.
pub enum OutgoingView {
    Ping,
    Connected,
    Registered,
    SaidUser(Seq<char>, Seq<char>),
    SaidRoom(Seq<char>, Seq<char>, Seq<char>),
    Room(Seq<char>),
    User(Seq<char>),
    Joined(Seq<char>, Seq<char>),
    Left(Seq<char>, Seq<char>),
}

impl View for OutgoingMsg {
    type V = OutgoingView;

    open spec fn view(&self) -> OutgoingView {
        match self {
            OutgoingMsg::Ping => OutgoingView::Ping,
            OutgoingMsg::Connected => OutgoingView::Connected,
            OutgoingMsg::Registered => OutgoingView::Registered,
            OutgoingMsg::SaidUser(from, message) => OutgoingView::SaidUser(from@, message@),
            OutgoingMsg::SaidRoom(room, from, message) => OutgoingView::SaidRoom(
                room@,
                from@,
                message@,
            ),
            OutgoingMsg::Room(room) => OutgoingView::Room(room@),
            OutgoingMsg::User(name) => OutgoingView::User(name@),
            OutgoingMsg::Joined(room, user) => OutgoingView::Joined(room@, user@),
            OutgoingMsg::Left(room, user) => OutgoingView::Left(room@, user@),
        }
    }
}

/// Messages that the clients send to the server, as the parser returns them.
#[derive(Debug, PartialEq)]
pub enum IncomingMsg {
    /// NAME user-name
    Name(String),
    /// JOIN room-name
    Join(String),
    /// LEAVE room-name
    Leave(String),
    /// SAY room-name message
    SayRoom(String, String),
    /// SAY user-name message
    SayUser(String, String),
    /// USERS room-name
    Users(String),
    /// ROOMS
    Rooms,
    /// QUIT
    Quit,
    /// PONG
    Pong,
}

/// The mathematical shape of an incoming message: the same variants as
/// [`IncomingMsg`], over character sequences.
pub enum IncomingView {
    Name(Seq<char>),
    Join(Seq<char>),
    Leave(Seq<char>),
    SayRoom(Seq<char>, Seq<char>),
    SayUser(Seq<char>, Seq<char>),
    Users(Seq<char>),
    Rooms,
    Quit,
    Pong,
}

impl View for IncomingMsg {
    type V = IncomingView;

    open spec fn view(&self) -> IncomingView {
        match self {
            IncomingMsg::Name(n) => IncomingView::Name(n@),
            IncomingMsg::Join(r) => IncomingView::Join(r@),
            IncomingMsg::Leave(r) => IncomingView::Leave(r@),
            IncomingMsg::SayRoom(r, m) => IncomingView::SayRoom(r@, m@),
            IncomingMsg::SayUser(n, m) => IncomingView::SayUser(n@, m@),
            IncomingMsg::Users(r) => IncomingView::Users(r@),
            IncomingMsg::Rooms => IncomingView::Rooms,
            IncomingMsg::Quit => IncomingView::Quit,
            IncomingMsg::Pong => IncomingView::Pong,
        }
    }
}

/// An incoming message is well formed when every name or room it carries has
/// its required shape.  The parser only ever produces well-formed messages.
pub open spec fn wf_incoming(m: IncomingView) -> bool {
    match m {
        IncomingView::Name(n) => valid_user_name(n),
        IncomingView::Join(r) => valid_room_name(r),
        IncomingView::Leave(r) => valid_room_name(r),
        IncomingView::SayRoom(r, _m) => valid_room_name(r),
        IncomingView::SayUser(n, _m) => valid_user_name(n),
        IncomingView::Users(r) => valid_room_name(r),
        IncomingView::Rooms => true,
        IncomingView::Quit => true,
        IncomingView::Pong => true,
    }
}

/// The wire line of an incoming message: what a client sends to request it.
pub open spec fn incoming_line(m: IncomingView) -> Seq<char> {
    match m {
        IncomingView::Name(n) => "NAME "@ + n,
        IncomingView::Join(r) => "JOIN "@ + r,
        IncomingView::Leave(r) => "LEAVE "@ + r,
        IncomingView::SayRoom(r, t) => "SAY "@ + r + " "@ + t,
        IncomingView::SayUser(n, t) => "SAY "@ + n + " "@ + t,
        IncomingView::Users(r) => "USERS "@ + r,
        IncomingView::Rooms => "ROOMS"@,
        IncomingView::Quit => "QUIT"@,
        IncomingView::Pong => "PONG"@,
    }
}

impl Message for IncomingMsg {
    open spec fn line_spec(&self) -> Seq<char> {
        incoming_line(self@)
    }

    fn to_line(&self) -> (r: String) {
        match self {
            IncomingMsg::Name(n) => {
                let mut s = "NAME ".to_owned();
                s.append(n.as_str());
                s
            },
            IncomingMsg::Join(r) => {
                let mut s = "JOIN ".to_owned();
                s.append(r.as_str());
                s
            },
            IncomingMsg::Leave(r) => {
                let mut s = "LEAVE ".to_owned();
                s.append(r.as_str());
                s
            },
            IncomingMsg::SayRoom(r, t) => {
                let mut s = "SAY ".to_owned();
                s.append(r.as_str());
                s.append(" ");
                s.append(t.as_str());
                s
            },
            IncomingMsg::SayUser(n, t) => {
                let mut s = "SAY ".to_owned();
                s.append(n.as_str());
                s.append(" ");
                s.append(t.as_str());
                s
            },
            IncomingMsg::Users(r) => {
                let mut s = "USERS ".to_owned();
                s.append(r.as_str());
                s
            },
            IncomingMsg::Rooms => "ROOMS".to_owned(),
            IncomingMsg::Quit => "QUIT".to_owned(),
            IncomingMsg::Pong => "PONG".to_owned(),
        }
    }
}

/// Errors of the framing layer, reported to the issuing client as an
/// `ERROR` line; the connection continues.
#[derive(Debug, PartialEq)]
pub enum FormatError {
    /// The inbound line went over the 1024-byte maximum.
    MaxLineLengthExceeded,
}

impl Message for FormatError {
    open spec fn line_spec(&self) -> Seq<char> {
        "ERROR max length reached"@
    }

    fn to_line(&self) -> (r: String) {
        "ERROR max length reached".to_owned()
    }
}

} // verus!
