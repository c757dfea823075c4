//! The registry: the process-wide store of users and rooms.
//!
//! One instance is shared by every connection handler, guarded by one lock
//! outside the library; every operation here is one atomic mutation or
//! snapshot.  The invariants of [`ServerState::wf`] hold at every quiescent
//! point: membership is recorded on both sides and stays consistent, no
//! room is ever empty, and every stored name has its required shape.

use vstd::prelude::*;
use crate::mailbox::mailbox_send;
use crate::messages::{Message, OutgoingMsg, OutgoingView};
use crate::names::{valid_room_name, valid_user_name};
use crate::tokens::str_eq;
use tokio::sync::mpsc::UnboundedSender;

verus! {

/// A sequence of names without repetition.
pub open spec fn distinct_seq(s: Seq<Seq<char>>) -> bool {
    forall|i: int, j: int| 0 <= i < j < s.len() ==> s[i] != s[j]
}

/// Errors of registry operations, each reported to the issuing client as an
/// `ERROR` line; the connection continues.
#[derive(Debug, PartialEq)]
pub enum ServerError {
    RoomUnknown(String),
    UserAlreadyExists(String),
    UserNotInRoom(String, String),
    UserUnknown(String),
}

impl Message for ServerError {
    open spec fn line_spec(&self) -> Seq<char> {
        match self {
            ServerError::RoomUnknown(name) => "ERROR room unknown "@ + name@,
            ServerError::UserAlreadyExists(name) => "ERROR user already exists "@ + name@,
            ServerError::UserNotInRoom(user_name, room_name) => "ERROR user not in room "@
                + user_name@ + " "@ + room_name@,
            ServerError::UserUnknown(name) => "ERROR user unknown "@ + name@,
        }
    }

    fn to_line(&self) -> (r: String) {
        match self {
            ServerError::RoomUnknown(name) => {
                let mut s = "ERROR room unknown ".to_owned();
                s.append(name.as_str());
                s
            },
            ServerError::UserAlreadyExists(name) => {
                let mut s = "ERROR user already exists ".to_owned();
                s.append(name.as_str());
                s
            },
            ServerError::UserNotInRoom(user_name, room_name) => {
                let mut s = "ERROR user not in room ".to_owned();
                s.append(user_name.as_str());
                s.append(" ");
                s.append(room_name.as_str());
                s
            },
            ServerError::UserUnknown(name) => {
                let mut s = "ERROR user unknown ".to_owned();
                s.append(name.as_str());
                s
            },
        }
    }
}

pub open spec fn is_room_unknown(e: ServerError, room: Seq<char>) -> bool {
    match e {
        ServerError::RoomUnknown(n) => n@ == room,
        _ => false,
    }
}

pub open spec fn is_user_already_exists(e: ServerError, user: Seq<char>) -> bool {
    match e {
        ServerError::UserAlreadyExists(n) => n@ == user,
        _ => false,
    }
}

pub open spec fn is_user_not_in_room(e: ServerError, user: Seq<char>, room: Seq<char>) -> bool {
    match e {
        ServerError::UserNotInRoom(u, r) => u@ == user && r@ == room,
        _ => false,
    }
}

pub open spec fn is_user_unknown(e: ServerError, user: Seq<char>) -> bool {
    match e {
        ServerError::UserUnknown(n) => n@ == user,
        _ => false,
    }
}

/// One registered user: the enqueue side of their mailbox, and the set of
/// rooms they are joined to.
pub struct User {
    sender: UnboundedSender<OutgoingMsg>,
    rooms: Vec<String>,
    sent: Ghost<Seq<OutgoingView>>,
}

impl User {
    /// The rooms this user is joined to, in insertion order, no repeats.
    pub closed spec fn room_list(&self) -> Seq<Seq<char>> {
        self.rooms.deep_view()
    }

    /// The enqueue handle of this user's mailbox.
    pub closed spec fn mailbox(&self) -> UnboundedSender<OutgoingMsg> {
        self.sender
    }

    /// Everything this library has handed to the user's mailbox, oldest
    /// first.  The log grows by exactly one entry per enqueue, so the
    /// delivery contracts can say what each mailbox receives.
    pub closed spec fn sent_log(&self) -> Seq<OutgoingView> {
        self.sent@
    }

    pub open spec fn wf(&self) -> bool {
        &&& distinct_seq(self.room_list())
        &&& forall|i: int|
            0 <= i < self.room_list().len() ==> valid_room_name(#[trigger] self.room_list()[i])
    }

    pub fn new(sender: UnboundedSender<OutgoingMsg>) -> (r: User)
        ensures
            r.wf(),
            r.room_list() == Seq::<Seq<char>>::empty(),
            r.mailbox() == sender,
            r.sent_log() == Seq::<OutgoingView>::empty(),
    {
        let r = User { sender, rooms: Vec::new(), sent: Ghost(Seq::empty()) };
        proof {
            assert(r.room_list() =~= Seq::<Seq<char>>::empty());
        }
        r
    }

    /// Records that this user joined a room; a second join of the same room
    /// changes nothing.
    pub fn add_room(&mut self, name: String)
        requires
            old(self).wf(),
            valid_room_name(name@),
        ensures
            final(self).wf(),
            final(self).mailbox() == old(self).mailbox(),
            final(self).sent_log() == old(self).sent_log(),
            old(self).room_list().contains(name@) ==> final(self).room_list() == old(self).room_list(),
            !old(self).room_list().contains(name@) ==> final(self).room_list() == old(
                self,
            ).room_list().push(name@),
            forall|r: Seq<char>|
                final(self).room_list().contains(r) <==> (old(self).room_list().contains(r) || r
                    == name@),
    {
        let ghost pre = self.room_list();
        if !vec_contains_str(&self.rooms, name.as_str()) {
            self.rooms.push(name);
            proof {
                assert(self.room_list() =~= pre.push(name@));
                assert forall|r: Seq<char>|
                    self.room_list().contains(r) <==> (pre.contains(r) || r == name@) by {
                    if pre.contains(r) {
                        let i = choose|i: int| 0 <= i < pre.len() && pre[i] == r;
                        assert(self.room_list()[i] == r);
                    }
                    if r == name@ {
                        assert(self.room_list()[pre.len() as int] == r);
                    }
                    if self.room_list().contains(r) {
                        let i = choose|i: int|
                            0 <= i < self.room_list().len() && self.room_list()[i] == r;
                        if i < pre.len() {
                            assert(pre[i] == r);
                        }
                    }
                }
            }
        } else {
            proof {
                assert(self.room_list() =~= pre);
            }
        }
    }

    /// Records that this user left a room; unknown rooms change nothing.
    pub fn remove_room(&mut self, name: &str)
        requires
            old(self).wf(),
        ensures
            final(self).wf(),
            final(self).mailbox() == old(self).mailbox(),
            final(self).sent_log() == old(self).sent_log(),
            !old(self).room_list().contains(name@) ==> final(self).room_list() == old(self).room_list(),
            old(self).room_list().contains(name@) ==> exists|i: int|
                0 <= i < old(self).room_list().len() && old(self).room_list()[i] == name@
                    && final(self).room_list() == old(self).room_list().remove(i),
            forall|r: Seq<char>|
                final(self).room_list().contains(r) <==> (old(self).room_list().contains(r) && r
                    != name@),
    {
        let ghost pre = self.room_list();
        if let Some(i) = vec_position_str(&self.rooms, name) {
            self.rooms.remove(i);
            proof {
                assert(self.room_list() =~= pre.remove(i as int));
                pre.remove_ensures(i as int);
                assert forall|r: Seq<char>|
                    self.room_list().contains(r) <==> (pre.contains(r) && r != name@) by {
                    let post = self.room_list();
                    if post.contains(r) {
                        let k = choose|k: int| 0 <= k < post.len() && post[k] == r;
                        if k < i {
                            assert(pre[k] == r);
                        } else {
                            assert(pre[k + 1] == r);
                        }
                        assert(pre.contains(r));
                        if r == name@ {
                            let k2: int = if k < i {
                                k
                            } else {
                                k + 1
                            };
                            assert(pre[k2] == name@ && pre[i as int] == name@ && k2 != i);
                        }
                    }
                    if pre.contains(r) && r != name@ {
                        let k = choose|k: int| 0 <= k < pre.len() && pre[k] == r;
                        if k < i {
                            assert(post[k] == r);
                        } else {
                            assert(k != i);
                            assert(post[k - 1] == r);
                        }
                    }
                }
            }
        } else {
            proof {
                assert(!pre.contains(name@)) by {
                    if pre.contains(name@) {
                        let k = choose|k: int| 0 <= k < pre.len() && pre[k] == name@;
                    }
                }
            }
        }
    }

    /// Enqueues one message to this user's mailbox and records it on the
    /// send log.  Never blocks; the enqueue fails only when the owning
    /// connection has already torn down, in which case the message is
    /// simply lost with it — the log records what was handed over either
    /// way.
    pub fn send(&mut self, message: OutgoingMsg) -> (r: Result<(), String>)
        ensures
            final(self).sent_log() == old(self).sent_log().push(message@),
            final(self).room_list() == old(self).room_list(),
            final(self).mailbox() == old(self).mailbox(),
    {
        let ghost entry = message@;
        proof {
            self.sent@ = self.sent@.push(entry);
        }
        mailbox_send(&self.sender, message)
    }
}

/// Whether `v` holds a string equal to `name`.
fn vec_contains_str(v: &Vec<String>, name: &str) -> (r: bool)
    ensures
        r == v.deep_view().contains(name@),
{
    let mut i: usize = 0;
    while i < v.len()
        invariant
            0 <= i <= v.len(),
            forall|k: int| 0 <= k < i ==> v.deep_view()[k] != name@,
        decreases v.len() - i,
    {
        if str_eq(v[i].as_str(), name) {
            proof {
                assert(v.deep_view()[i as int] == name@);
            }
            return true;
        }
        i += 1;
    }
    proof {
        if v.deep_view().contains(name@) {
            let k = choose|k: int| 0 <= k < v.deep_view().len() && v.deep_view()[k] == name@;
        }
    }
    false
}

/// The first position in `v` holding a string equal to `name`.
fn vec_position_str(v: &Vec<String>, name: &str) -> (r: Option<usize>)
    ensures
        r matches Some(i) ==> i < v.len() && v.deep_view()[i as int] == name@,
        r is None ==> forall|k: int| 0 <= k < v.deep_view().len() ==> v.deep_view()[k] != name@,
{
    let mut i: usize = 0;
    while i < v.len()
        invariant
            0 <= i <= v.len(),
            forall|k: int| 0 <= k < i ==> v.deep_view()[k] != name@,
        decreases v.len() - i,
    {
        if str_eq(v[i].as_str(), name) {
            proof {
                assert(v.deep_view()[i as int] == name@);
            }
            return Some(i);
        }
        i += 1;
    }
    None
}

/// One room: the names of its current members.  A room only ever exists
/// with at least one member.
pub struct Room {
    users: Vec<String>,
}

impl Room {
    /// The member names, in join order, no repeats.
    pub closed spec fn member_list(&self) -> Seq<Seq<char>> {
        self.users.deep_view()
    }

    pub open spec fn wf(&self) -> bool {
        &&& distinct_seq(self.member_list())
        &&& forall|i: int|
            0 <= i < self.member_list().len() ==> valid_user_name(
                #[trigger] self.member_list()[i],
            )
    }

    pub fn new() -> (r: Room)
        ensures
            r.wf(),
            r.member_list() == Seq::<Seq<char>>::empty(),
    {
        let r = Room { users: Vec::new() };
        proof {
            assert(r.member_list() =~= Seq::<Seq<char>>::empty());
        }
        r
    }

    /// Adds a member; adding a present member changes nothing.
    pub fn add_user(&mut self, name: String)
        requires
            old(self).wf(),
            valid_user_name(name@),
        ensures
            final(self).wf(),
            old(self).member_list().contains(name@) ==> final(self).member_list() == old(
                self,
            ).member_list(),
            !old(self).member_list().contains(name@) ==> final(self).member_list() == old(
                self,
            ).member_list().push(name@),
            forall|u: Seq<char>|
                final(self).member_list().contains(u) <==> (old(self).member_list().contains(u) || u
                    == name@),
    {
        let ghost pre = self.member_list();
        if !vec_contains_str(&self.users, name.as_str()) {
            self.users.push(name);
            proof {
                assert(self.member_list() =~= pre.push(name@));
                assert forall|u: Seq<char>|
                    self.member_list().contains(u) <==> (pre.contains(u) || u == name@) by {
                    if pre.contains(u) {
                        let i = choose|i: int| 0 <= i < pre.len() && pre[i] == u;
                        assert(self.member_list()[i] == u);
                    }
                    if u == name@ {
                        assert(self.member_list()[pre.len() as int] == u);
                    }
                    if self.member_list().contains(u) {
                        let i = choose|i: int|
                            0 <= i < self.member_list().len() && self.member_list()[i] == u;
                        if i < pre.len() {
                            assert(pre[i] == u);
                        }
                    }
                }
            }
        } else {
            proof {
                assert(self.member_list() =~= pre);
            }
        }
    }

    /// Removes a member, reporting whether they were present.
    pub fn remove_user(&mut self, name: &str) -> (r: bool)
        requires
            old(self).wf(),
        ensures
            final(self).wf(),
            r == old(self).member_list().contains(name@),
            !r ==> final(self).member_list() == old(self).member_list(),
            r ==> exists|i: int|
                0 <= i < old(self).member_list().len() && old(self).member_list()[i] == name@
                    && final(self).member_list() == old(self).member_list().remove(i),
            r ==> final(self).member_list().len() == old(self).member_list().len() - 1,
            forall|u: Seq<char>|
                final(self).member_list().contains(u) <==> (old(self).member_list().contains(u) && u
                    != name@),
    {
        let ghost pre = self.member_list();
        if let Some(i) = vec_position_str(&self.users, name) {
            self.users.remove(i);
            proof {
                assert(pre.contains(name@)) by {
                    assert(pre[i as int] == name@);
                }
                assert(self.member_list() =~= pre.remove(i as int));
                pre.remove_ensures(i as int);
                assert forall|u: Seq<char>|
                    self.member_list().contains(u) <==> (pre.contains(u) && u != name@) by {
                    let post = self.member_list();
                    if post.contains(u) {
                        let k = choose|k: int| 0 <= k < post.len() && post[k] == u;
                        if k < i {
                            assert(pre[k] == u);
                        } else {
                            assert(pre[k + 1] == u);
                        }
                        assert(pre.contains(u));
                        if u == name@ {
                            let k2: int = if k < i {
                                k
                            } else {
                                k + 1
                            };
                            assert(pre[k2] == name@ && pre[i as int] == name@ && k2 != i);
                        }
                    }
                    if pre.contains(u) && u != name@ {
                        let k = choose|k: int| 0 <= k < pre.len() && pre[k] == u;
                        if k < i {
                            assert(post[k] == u);
                        } else {
                            assert(k != i);
                            assert(post[k - 1] == u);
                        }
                    }
                }
            }
            true
        } else {
            proof {
                assert(!pre.contains(name@)) by {
                    if pre.contains(name@) {
                        let k = choose|k: int| 0 <= k < pre.len() && pre[k] == name@;
                    }
                }
            }
            false
        }
    }

    /// Whether the room has no members left.
    pub fn is_empty(&self) -> (r: bool)
        ensures
            r == (self.member_list().len() == 0),
    {
        self.users.is_empty()
    }
}

/// The registry proper: users and rooms, each keyed by their name.
pub struct ServerState {
    users: Vec<(String, User)>,
    rooms: Vec<(String, Room)>,
}

impl ServerState {
    /// The registered user names, in registration order.
    pub closed spec fn user_names(&self) -> Seq<Seq<char>> {
        Seq::new(self.users@.len(), |i: int| self.users@[i].0@)
    }

    /// The user record at position `i`.
    pub closed spec fn user_at(&self, i: int) -> User {
        self.users@[i].1
    }

    /// The existing room names, in creation order.
    pub closed spec fn room_names(&self) -> Seq<Seq<char>> {
        Seq::new(self.rooms@.len(), |i: int| self.rooms@[i].0@)
    }

    /// The room record at position `j`.
    pub closed spec fn room_at(&self, j: int) -> Room {
        self.rooms@[j].1
    }

    pub open spec fn has_user(&self, u: Seq<char>) -> bool {
        self.user_names().contains(u)
    }

    pub open spec fn has_room(&self, r: Seq<char>) -> bool {
        self.room_names().contains(r)
    }

    /// The position of user `u`; meaningful when `has_user(u)` holds and
    /// the names are distinct.
    pub open spec fn user_index(&self, u: Seq<char>) -> int {
        self.user_names().index_of(u)
    }

    /// The position of room `r`; meaningful when `has_room(r)` holds and
    /// the names are distinct.
    pub open spec fn room_index(&self, r: Seq<char>) -> int {
        self.room_names().index_of(r)
    }

    /// The rooms user `u` is joined to.
    pub open spec fn user_rooms(&self, u: Seq<char>) -> Seq<Seq<char>> {
        self.user_at(self.user_index(u)).room_list()
    }

    /// The mailbox handle of user `u`.
    pub open spec fn user_mailbox(&self, u: Seq<char>) -> UnboundedSender<OutgoingMsg> {
        self.user_at(self.user_index(u)).mailbox()
    }

    /// The member names of room `r`.
    pub open spec fn members(&self, r: Seq<char>) -> Seq<Seq<char>> {
        self.room_at(self.room_index(r)).member_list()
    }

    /// The send log of user `u`: everything the library has handed to
    /// their mailbox, oldest first.
    pub open spec fn user_sent(&self, u: Seq<char>) -> Seq<OutgoingView> {
        self.user_at(self.user_index(u)).sent_log()
    }

    /// Membership as the user side records it: some user entry named `u`
    /// lists room `r`.
    pub open spec fn in_user_rooms(&self, u: Seq<char>, r: Seq<char>) -> bool {
        exists|i: int|
            0 <= i < self.user_names().len() && self.user_names()[i] == u && (
            #[trigger] self.user_at(i)).room_list().contains(r)
    }

    /// Membership as the room side records it: some room entry named `r`
    /// lists user `u`.
    pub open spec fn in_members(&self, r: Seq<char>, u: Seq<char>) -> bool {
        exists|j: int|
            0 <= j < self.room_names().len() && self.room_names()[j] == r && (
            #[trigger] self.room_at(j)).member_list().contains(u)
    }

    /// The registry's invariants, maintained by every operation:
    /// names are unique keys with their required shapes, membership is
    /// recorded consistently on both sides, and no room is empty.
    pub open spec fn wf(&self) -> bool {
        &&& distinct_seq(self.user_names())
        &&& distinct_seq(self.room_names())
        &&& forall|i: int| 0 <= i < self.user_names().len() ==> (#[trigger] self.user_at(i)).wf()
        &&& forall|i: int|
            0 <= i < self.user_names().len() ==> valid_user_name(#[trigger] self.user_names()[i])
        &&& forall|j: int| 0 <= j < self.room_names().len() ==> (#[trigger] self.room_at(j)).wf()
        &&& forall|j: int|
            0 <= j < self.room_names().len() ==> valid_room_name(#[trigger] self.room_names()[j])
        &&& forall|j: int|
            0 <= j < self.room_names().len() ==> (#[trigger] self.room_at(
                j,
            )).member_list().len() > 0
        &&& forall|u: Seq<char>, r: Seq<char>|
            #[trigger] self.in_user_rooms(u, r) ==> self.in_members(r, u)
        &&& forall|u: Seq<char>, r: Seq<char>|
            #[trigger] self.in_members(r, u) ==> self.in_user_rooms(u, r)
    }

    /// The chosen user index is the one index carrying `u`.
    pub proof fn lemma_user_index(&self, u: Seq<char>)
        requires
            distinct_seq(self.user_names()),
            self.has_user(u),
        ensures
            0 <= self.user_index(u) < self.user_names().len(),
            self.user_names()[self.user_index(u)] == u,
            forall|i: int|
                0 <= i < self.user_names().len() && self.user_names()[i] == u ==> i
                    == self.user_index(u),
    {
        let idx = self.user_index(u);
        assert(exists|i: int| 0 <= i < self.user_names().len() && self.user_names()[i] == u);
        assert(0 <= idx < self.user_names().len() && self.user_names()[idx] == u);
        assert forall|i: int|
            0 <= i < self.user_names().len() && self.user_names()[i] == u implies i == idx by {
            if i < idx {
                assert(self.user_names()[i] != self.user_names()[idx]);
            } else if idx < i {
                assert(self.user_names()[idx] != self.user_names()[i]);
            }
        }
    }

    /// The chosen room index is the one index carrying `r`.
    pub proof fn lemma_room_index(&self, r: Seq<char>)
        requires
            distinct_seq(self.room_names()),
            self.has_room(r),
        ensures
            0 <= self.room_index(r) < self.room_names().len(),
            self.room_names()[self.room_index(r)] == r,
            forall|j: int|
                0 <= j < self.room_names().len() && self.room_names()[j] == r ==> j
                    == self.room_index(r),
    {
        let idx = self.room_index(r);
        assert(exists|j: int| 0 <= j < self.room_names().len() && self.room_names()[j] == r);
        assert(0 <= idx < self.room_names().len() && self.room_names()[idx] == r);
        assert forall|j: int|
            0 <= j < self.room_names().len() && self.room_names()[j] == r implies j == idx by {
            if j < idx {
                assert(self.room_names()[j] != self.room_names()[idx]);
            } else if idx < j {
                assert(self.room_names()[idx] != self.room_names()[j]);
            }
        }
    }

    /// An empty registry: no users, no rooms.
    pub fn new() -> (r: ServerState)
        ensures
            r.wf(),
            r.user_names() == Seq::<Seq<char>>::empty(),
            r.room_names() == Seq::<Seq<char>>::empty(),
    {
        let r = ServerState { users: Vec::new(), rooms: Vec::new() };
        proof {
            assert(r.user_names() =~= Seq::<Seq<char>>::empty());
            assert(r.room_names() =~= Seq::<Seq<char>>::empty());
        }
        r
    }

    /// The position of the user entry named `name`.
    fn find_user(&self, name: &str) -> (r: Option<usize>)
        ensures
            r matches Some(i) ==> i < self.user_names().len() && self.user_names()[i as int]
                == name@,
            r is Some <==> self.has_user(name@),
    {
        let mut i: usize = 0;
        while i < self.users.len()
            invariant
                0 <= i <= self.users.len(),
                forall|k: int| 0 <= k < i ==> self.user_names()[k] != name@,
            decreases self.users.len() - i,
        {
            if str_eq(self.users[i].0.as_str(), name) {
                proof {
                    assert(self.user_names()[i as int] == name@);
                }
                return Some(i);
            }
            i += 1;
        }
        proof {
            if self.has_user(name@) {
                let k = choose|k: int|
                    0 <= k < self.user_names().len() && self.user_names()[k] == name@;
            }
        }
        None
    }

    /// The position of the room entry named `name`.
    fn find_room(&self, name: &str) -> (r: Option<usize>)
        ensures
            r matches Some(j) ==> j < self.room_names().len() && self.room_names()[j as int]
                == name@,
            r is Some <==> self.has_room(name@),
    {
        let mut j: usize = 0;
        while j < self.rooms.len()
            invariant
                0 <= j <= self.rooms.len(),
                forall|k: int| 0 <= k < j ==> self.room_names()[k] != name@,
            decreases self.rooms.len() - j,
        {
            if str_eq(self.rooms[j].0.as_str(), name) {
                proof {
                    assert(self.room_names()[j as int] == name@);
                }
                return Some(j);
            }
            j += 1;
        }
        proof {
            if self.has_room(name@) {
                let k = choose|k: int|
                    0 <= k < self.room_names().len() && self.room_names()[k] == name@;
            }
        }
        None
    }

    /// Whether a user of this name is registered.
    pub fn contains_user(&self, name: &str) -> (r: bool)
        ensures
            r == self.has_user(name@),
    {
        self.find_user(name).is_some()
    }

    /// Whether a room of this name exists.
    pub fn contains_room(&self, name: &str) -> (r: bool)
        ensures
            r == self.has_room(name@),
    {
        self.find_room(name).is_some()
    }

    /// Whether `user`'s own record lists `room`.
    pub fn user_has_room(&self, user: &str, room: &str) -> (r: bool)
        requires
            self.wf(),
        ensures
            r == self.in_user_rooms(user@, room@),
    {
        match self.find_user(user) {
            Some(i) => {
                proof {
                    self.lemma_user_index(user@);
                }
                let r = vec_contains_str(&self.users[i].1.rooms, room);
                proof {
                    if r {
                        assert(self.user_at(i as int).room_list().contains(room@));
                    } else {
                        if self.in_user_rooms(user@, room@) {
                            let k = choose|k: int|
                                0 <= k < self.user_names().len() && self.user_names()[k] == user@
                                    && self.user_at(k).room_list().contains(room@);
                            assert(k == i as int);
                        }
                    }
                }
                r
            },
            None => {
                proof {
                    if self.in_user_rooms(user@, room@) {
                        let k = choose|k: int|
                            0 <= k < self.user_names().len() && self.user_names()[k] == user@
                                && self.user_at(k).room_list().contains(room@);
                        assert(self.has_user(user@));
                    }
                }
                false
            },
        }
    }

    /// Whether `room`'s member set lists `user`.
    pub fn room_has_user(&self, room: &str, user: &str) -> (r: bool)
        requires
            self.wf(),
        ensures
            r == self.in_members(room@, user@),
    {
        match self.find_room(room) {
            Some(j) => {
                proof {
                    self.lemma_room_index(room@);
                }
                let r = vec_contains_str(&self.rooms[j].1.users, user);
                proof {
                    if r {
                        assert(self.room_at(j as int).member_list().contains(user@));
                    } else {
                        if self.in_members(room@, user@) {
                            let k = choose|k: int|
                                0 <= k < self.room_names().len() && self.room_names()[k] == room@
                                    && self.room_at(k).member_list().contains(user@);
                            assert(k == j as int);
                        }
                    }
                }
                r
            },
            None => {
                proof {
                    if self.in_members(room@, user@) {
                        let k = choose|k: int|
                            0 <= k < self.room_names().len() && self.room_names()[k] == room@
                                && self.room_at(k).member_list().contains(user@);
                        assert(self.has_room(room@));
                    }
                }
                false
            },
        }
    }

    /// A snapshot of the current room names.
    pub fn rooms(&self) -> (r: Vec<String>)
        ensures
            r.deep_view() == self.room_names(),
    {
        let mut out: Vec<String> = Vec::new();
        let mut j: usize = 0;
        while j < self.rooms.len()
            invariant
                0 <= j <= self.rooms.len(),
                out.deep_view() =~= self.room_names().subrange(0, j as int),
            decreases self.rooms.len() - j,
        {
            let ghost pre = out.deep_view();
            out.push(self.rooms[j].0.clone());
            proof {
                assert(out.deep_view() =~= pre.push(self.room_names()[j as int]));
                assert(out.deep_view() =~= self.room_names().subrange(0, j as int + 1));
            }
            j += 1;
        }
        proof {
            assert(self.room_names().subrange(0, self.rooms.len() as int) =~= self.room_names());
        }
        out
    }

    /// A snapshot of the member names of `room_name`.
    pub fn users(&self, room_name: &str) -> (r: Result<Vec<String>, ServerError>)
        requires
            self.wf(),
        ensures
            r is Ok <==> self.has_room(room_name@),
            r matches Ok(v) ==> v.deep_view() == self.members(room_name@),
            r matches Err(e) ==> is_room_unknown(e, room_name@),
    {
        match self.find_room(room_name) {
            Some(j) => {
                proof {
                    self.lemma_room_index(room_name@);
                }
                let room = &self.rooms[j].1;
                let mut out: Vec<String> = Vec::new();
                let mut k: usize = 0;
                while k < room.users.len()
                    invariant
                        0 <= k <= room.users.len(),
                        out.deep_view() =~= room.member_list().subrange(0, k as int),
                    decreases room.users.len() - k,
                {
                    let ghost pre = out.deep_view();
                    out.push(room.users[k].clone());
                    proof {
                        assert(out.deep_view() =~= pre.push(room.member_list()[k as int]));
                        assert(out.deep_view() =~= room.member_list().subrange(0, k as int + 1));
                    }
                    k += 1;
                }
                proof {
                    assert(room.member_list().subrange(0, room.users.len() as int)
                        =~= room.member_list());
                    assert(out.deep_view() == self.members(room_name@));
                }
                Ok(out)
            },
            None => Err(ServerError::RoomUnknown(room_name.to_owned())),
        }
    }
}

/// What a successful `add_user(n, user)` does: appends the user, touches
/// nothing else.
pub open spec fn spec_add_user(pre: ServerState, post: ServerState, n: Seq<char>, user: User) -> bool {
    &&& post.user_names() == pre.user_names().push(n)
    &&& post.room_names() == pre.room_names()
    &&& post.user_rooms(n) == user.room_list()
    &&& post.user_mailbox(n) == user.mailbox()
    &&& post.user_sent(n) == user.sent_log()
    &&& forall|u: Seq<char>|
        u != n && #[trigger] pre.has_user(u) ==> post.user_rooms(u) == pre.user_rooms(u)
            && post.user_mailbox(u) == pre.user_mailbox(u) && post.user_sent(u)
            == pre.user_sent(u)
    &&& forall|rm: Seq<char>| #[trigger] pre.has_room(rm) ==> post.members(rm) == pre.members(rm)
}

/// What a successful `join_room(rm, u)` does: `u` is a member of `rm`
/// afterwards, the room coming into being if needed, and nothing else moves.
pub open spec fn spec_join_room(pre: ServerState, post: ServerState, rm: Seq<char>, u: Seq<
    char,
>) -> bool {
    &&& post.user_names() == pre.user_names()
    &&& forall|x: Seq<char>|
        #[trigger] pre.has_user(x) ==> post.user_mailbox(x) == pre.user_mailbox(x)
            && post.user_sent(x) == pre.user_sent(x)
    &&& forall|x: Seq<char>|
        x != u && #[trigger] pre.has_user(x) ==> post.user_rooms(x) == pre.user_rooms(x)
    &&& pre.user_rooms(u).contains(rm) ==> post.user_rooms(u) == pre.user_rooms(u)
    &&& !pre.user_rooms(u).contains(rm) ==> post.user_rooms(u) == pre.user_rooms(u).push(rm)
    &&& pre.has_room(rm) ==> post.room_names() == pre.room_names()
    &&& !pre.has_room(rm) ==> post.room_names() == pre.room_names().push(rm)
    &&& forall|r2: Seq<char>|
        r2 != rm && #[trigger] pre.has_room(r2) ==> post.members(r2) == pre.members(r2)
    &&& pre.has_room(rm) && pre.members(rm).contains(u) ==> post.members(rm) == pre.members(rm)
    &&& pre.has_room(rm) && !pre.members(rm).contains(u) ==> post.members(rm) == pre.members(
        rm,
    ).push(u)
    &&& !pre.has_room(rm) ==> post.members(rm) == seq![u]
}

impl ServerState {
    /// Registers a new user under `name`.  Fails, changing nothing, exactly
    /// when the name is taken.
    pub fn add_user(&mut self, name: String, user: User) -> (r: Result<(), ServerError>)
        requires
            old(self).wf(),
            valid_user_name(name@),
            user.wf(),
            user.room_list().len() == 0,
        ensures
            final(self).wf(),
            r is Ok <==> !old(self).has_user(name@),
            r is Ok ==> spec_add_user(*old(self), *final(self), name@, user),
            r is Err ==> *final(self) == *old(self),
            r matches Err(e) ==> is_user_already_exists(e, name@),
    {
        let ghost pre = *self;
        if self.contains_user(name.as_str()) {
            return Err(ServerError::UserAlreadyExists(name));
        }
        let ghost n = name@;
        self.users.push((name, user));
        proof {
            let prelen = pre.user_names().len() as int;
            assert(self.user_names() =~= pre.user_names().push(n));
            assert(forall|i: int| 0 <= i < prelen ==> self.user_at(i) == pre.user_at(i));
            assert(self.user_at(prelen) == user);
            assert(self.rooms == pre.rooms);
            assert(self.room_names() =~= pre.room_names());
            assert(forall|j: int| 0 <= j < self.room_names().len() ==> self.room_at(j)
                == pre.room_at(j));
            assert(distinct_seq(self.user_names())) by {
                assert forall|i: int, j: int|
                    0 <= i < j < self.user_names().len() implies self.user_names()[i]
                    != self.user_names()[j] by {
                    if j < prelen {
                        assert(pre.user_names()[i] != pre.user_names()[j]);
                    } else {
                        assert(self.user_names()[j] == n);
                        assert(!pre.has_user(n));
                        assert(pre.user_names()[i] != n);
                    }
                }
            }
            assert(self.user_names()[prelen] == n);
            assert(self.has_user(n));
            self.lemma_user_index(n);
            assert(self.user_index(n) == prelen);
            assert(self.user_rooms(n) == user.room_list());
            assert(self.user_sent(n) == user.sent_log());
            assert forall|u: Seq<char>| u != n && pre.has_user(u) implies self.user_rooms(u)
                == pre.user_rooms(u) && self.user_mailbox(u) == pre.user_mailbox(u)
                && self.user_sent(u) == pre.user_sent(u) by {
                pre.lemma_user_index(u);
                let i = pre.user_index(u);
                assert(self.user_names()[i] == u);
                assert(self.has_user(u));
                self.lemma_user_index(u);
                assert(self.user_index(u) == i);
            }
            assert forall|rm: Seq<char>| pre.has_room(rm) implies self.members(rm)
                == pre.members(rm) by {
                pre.lemma_room_index(rm);
                let j = pre.room_index(rm);
                assert(self.room_names()[j] == rm);
                assert(self.has_room(rm));
                self.lemma_room_index(rm);
                assert(self.room_index(rm) == j);
                assert(self.room_at(j) == pre.room_at(j));
            }
            // the new user is in no room, so both membership views are untouched
            assert forall|u: Seq<char>, r: Seq<char>|
                #[trigger] self.in_user_rooms(u, r) implies self.in_members(r, u) by {
                let i = choose|i: int|
                    0 <= i < self.user_names().len() && self.user_names()[i] == u && (
                    #[trigger] self.user_at(i)).room_list().contains(r);
                if i < prelen {
                    assert(pre.user_names()[i] == u);
                    assert(pre.user_at(i) == self.user_at(i));
                    assert(pre.user_at(i).room_list().contains(r));
                    assert(pre.in_user_rooms(u, r));
                    let j = choose|j: int|
                        0 <= j < pre.room_names().len() && pre.room_names()[j] == r && (
                        #[trigger] pre.room_at(j)).member_list().contains(u);
                    assert(self.room_names()[j] == r);
                    assert(self.room_at(j).member_list().contains(u));
                } else {
                    assert(self.user_at(i).room_list().len() == 0);
                }
            }
            assert forall|u: Seq<char>, r: Seq<char>|
                #[trigger] self.in_members(r, u) implies self.in_user_rooms(u, r) by {
                let j = choose|j: int|
                    0 <= j < self.room_names().len() && self.room_names()[j] == r && (
                    #[trigger] self.room_at(j)).member_list().contains(u);
                assert(pre.room_names()[j] == r);
                assert(pre.room_at(j).member_list().contains(u));
                assert(pre.in_members(r, u));
                let i = choose|i: int|
                    0 <= i < pre.user_names().len() && pre.user_names()[i] == u && (
                    #[trigger] pre.user_at(i)).room_list().contains(r);
                assert(self.user_names()[i] == u);
                assert(self.user_at(i).room_list().contains(r));
            }
            assert forall|i: int|
                0 <= i < self.user_names().len() implies (#[trigger] self.user_at(i)).wf() by {
                if i < prelen {
                    assert(self.user_at(i) == pre.user_at(i));
                    assert(pre.user_at(i).wf());
                } else {
                    assert(self.user_at(i) == user);
                }
            }
            assert forall|i: int|
                0 <= i < self.user_names().len() implies valid_user_name(
                #[trigger] self.user_names()[i],
            ) by {
                if i < prelen {
                    assert(self.user_names()[i] == pre.user_names()[i]);
                }
            }
            assert forall|j: int|
                0 <= j < self.room_names().len() implies (#[trigger] self.room_at(j)).wf() && (
                #[trigger] self.room_at(j)).member_list().len() > 0 by {
                assert(self.room_at(j) == pre.room_at(j));
                assert(pre.room_at(j).wf());
                assert(pre.room_at(j).member_list().len() > 0);
            }
            assert forall|j: int|
                0 <= j < self.room_names().len() implies valid_room_name(
                #[trigger] self.room_names()[j],
            ) by {
                assert(self.room_names()[j] == pre.room_names()[j]);
            }
        }
        Ok(())
    }

    /// Joins `user_name` to `room_name`, creating the room on first join.
    /// Fails, changing nothing, exactly when the user is unknown.
    pub fn join_room(&mut self, room_name: String, user_name: String) -> (r: Result<(),
        ServerError,
    >)
        requires
            old(self).wf(),
            valid_room_name(room_name@),
        ensures
            final(self).wf(),
            r is Ok <==> old(self).has_user(user_name@),
            r is Ok ==> spec_join_room(*old(self), *final(self), room_name@, user_name@),
            r is Err ==> *final(self) == *old(self),
            r matches Err(e) ==> is_user_unknown(e, user_name@),
    {
        let ghost pre = *self;
        let ghost rm = room_name@;
        let ghost un = user_name@;
        let i = match self.find_user(user_name.as_str()) {
            Some(i) => i,
            None => {
                return Err(ServerError::UserUnknown(user_name));
            },
        };
        proof {
            pre.lemma_user_index(un);
            assert(pre.user_index(un) == i as int);
            assert(valid_user_name(un));
        }
        match self.find_room(room_name.as_str()) {
            Some(j) => {
                proof {
                    pre.lemma_room_index(rm);
                    assert(pre.room_index(rm) == j as int);
                    assert(self.rooms@[j as int].1 == pre.room_at(j as int));
                    assert(pre.room_at(j as int).wf());
                    assert(pre.user_names()[i as int] == un);
                    assert(valid_user_name(un));
                }
                self.rooms[j].1.add_user(user_name.clone());
                proof {
                    assert(self.rooms@ =~= pre.rooms@.update(j as int, self.rooms@[j as int]));
                    assert(self.rooms@[j as int].0 == pre.rooms@[j as int].0);
                    assert(self.room_names() =~= pre.room_names());
                }
            },
            None => {
                proof {
                    assert(pre.user_names()[i as int] == un);
                    assert(valid_user_name(un));
                }
                let mut room = Room::new();
                room.add_user(user_name.clone());
                self.rooms.push((room_name.clone(), room));
                proof {
                    assert(self.room_names() =~= pre.room_names().push(rm));
                    assert(self.room_at(pre.room_names().len() as int).member_list() =~= seq![un]);
                }
            },
        }
        let ghost mid = *self;
        proof {
            assert(self.users == pre.users);
            assert(self.users@[i as int].1 == pre.user_at(i as int));
            assert(pre.user_at(i as int).wf());
        }
        self.users[i].1.add_room(room_name);
        proof {
            assert(self.users@ =~= mid.users@.update(i as int, self.users@[i as int]));
            assert(self.users@[i as int].0 == pre.users@[i as int].0);
            assert(self.user_at(i as int).sent_log() == pre.user_at(i as int).sent_log());
            assert(self.user_names() =~= pre.user_names());
            assert(mid.users == pre.users);
            assert(mid.user_names() =~= pre.user_names());
            assert(forall|k: int|
                0 <= k < mid.user_names().len() ==> mid.user_at(k) == pre.user_at(k));
            assert(self.rooms == mid.rooms);
            assert(self.room_names() =~= mid.room_names());
            assert(forall|k: int|
                0 <= k < self.user_names().len() && k != i as int ==> self.user_at(k)
                    == pre.user_at(k));
            assert(forall|k: int|
                0 <= k < self.room_names().len() ==> self.room_at(k) == mid.room_at(k));
            if pre.has_room(rm) {
                pre.lemma_room_index(rm);
                assert forall|k: int|
                    0 <= k < pre.room_names().len() && k != pre.room_index(rm) implies
                    mid.room_at(k) == pre.room_at(k) by {
                    assert(mid.rooms@[k] == pre.rooms@[k]);
                }
            } else {
                assert forall|k: int| 0 <= k < pre.room_names().len() implies mid.room_at(k)
                    == pre.room_at(k) by {
                    assert(mid.rooms@[k] == pre.rooms@[k]);
                }
            }
            lemma_join_room_post(pre, mid, *self, rm, un, i as int);
        }
        Ok(())
    }
}

/// The two halves of a join — the room side already updated in `mid`, the
/// user side updated in `post` — add up to a well-formed registry and the
/// stated effect.
proof fn lemma_join_room_post(
    pre: ServerState,
    mid: ServerState,
    post: ServerState,
    rm: Seq<char>,
    un: Seq<char>,
    i: int,
)
    requires
        pre.wf(),
        valid_room_name(rm),
        0 <= i < pre.user_names().len(),
        pre.user_names()[i] == un,
        pre.user_index(un) == i,
        // the room side of the update
        mid.user_names() == pre.user_names(),
        forall|k: int| 0 <= k < mid.user_names().len() ==> mid.user_at(k) == pre.user_at(k),
        pre.has_room(rm) ==> mid.room_names() == pre.room_names(),
        !pre.has_room(rm) ==> mid.room_names() == pre.room_names().push(rm),
        pre.has_room(rm) ==> forall|k: int|
            0 <= k < pre.room_names().len() && k != pre.room_index(rm) ==> mid.room_at(k)
                == pre.room_at(k),
        !pre.has_room(rm) ==> forall|k: int|
            0 <= k < pre.room_names().len() ==> mid.room_at(k) == pre.room_at(k),
        pre.has_room(rm) ==> {
            let j = pre.room_index(rm);
            let room = pre.room_at(j);
            let newroom = mid.room_at(j);
            &&& newroom.wf()
            &&& (room.member_list().contains(un) ==> newroom.member_list()
                == room.member_list())
            &&& (!room.member_list().contains(un) ==> newroom.member_list()
                == room.member_list().push(un))
            &&& forall|u: Seq<char>|
                newroom.member_list().contains(u) <==> (room.member_list().contains(u) || u
                    == un)
        },
        !pre.has_room(rm) ==> {
            let newroom = mid.room_at(pre.room_names().len() as int);
            &&& newroom.wf()
            &&& newroom.member_list() == seq![un]
        },
        // the user side of the update
        post.user_names() == pre.user_names(),
        post.room_names() == mid.room_names(),
        forall|k: int|
            0 <= k < post.user_names().len() && k != i ==> post.user_at(k) == pre.user_at(k),
        forall|k: int| 0 <= k < post.room_names().len() ==> post.room_at(k) == mid.room_at(k),
        post.user_at(i).wf(),
        post.user_at(i).mailbox() == pre.user_at(i).mailbox(),
        post.user_at(i).sent_log() == pre.user_at(i).sent_log(),
        pre.user_at(i).room_list().contains(rm) ==> post.user_at(i).room_list() == pre.user_at(
            i,
        ).room_list(),
        !pre.user_at(i).room_list().contains(rm) ==> post.user_at(i).room_list() == pre.user_at(
            i,
        ).room_list().push(rm),
        forall|r: Seq<char>|
            post.user_at(i).room_list().contains(r) <==> (pre.user_at(i).room_list().contains(r)
                || r == rm),
    ensures
        post.wf(),
        spec_join_room(pre, post, rm, un),
{
    let prelen = pre.room_names().len() as int;
    assert(distinct_seq(post.user_names()));
    assert(distinct_seq(post.room_names())) by {
        if !pre.has_room(rm) {
            assert forall|a: int, b: int|
                0 <= a < b < post.room_names().len() implies post.room_names()[a]
                != post.room_names()[b] by {
                if b < prelen {
                    assert(pre.room_names()[a] != pre.room_names()[b]);
                } else {
                    assert(post.room_names()[b] == rm);
                    assert(pre.room_names()[a] != rm);
                }
            }
        }
    }
    if pre.has_room(rm) {
        pre.lemma_room_index(rm);
    }
    // shapes, room records, no empty rooms
    assert forall|k: int| 0 <= k < post.user_names().len() implies (#[trigger] post.user_at(
        k,
    )).wf() by {
        if k != i {
            assert(post.user_at(k) == pre.user_at(k));
        }
    }
    assert forall|k: int| 0 <= k < post.room_names().len() implies (#[trigger] post.room_at(
        k,
    )).wf() && post.room_at(k).member_list().len() > 0 by {
        assert(post.room_at(k) == mid.room_at(k));
        if pre.has_room(rm) {
            if k != pre.room_index(rm) {
                assert(mid.room_at(k) == pre.room_at(k));
            }
        } else {
            if k < prelen {
                assert(mid.room_at(k) == pre.room_at(k));
            } else {
                assert(mid.room_at(k).member_list() == seq![un]);
                assert(mid.room_at(k).member_list().len() == 1);
            }
        }
    }
    assert forall|k: int| 0 <= k < post.room_names().len() implies valid_room_name(
        #[trigger] post.room_names()[k],
    ) by {
        if k < prelen {
            assert(post.room_names()[k] == pre.room_names()[k]);
        } else {
            assert(post.room_names()[k] == rm);
        }
    }
    // the index of rm in the new state
    let jm: int = if pre.has_room(rm) {
        pre.room_index(rm)
    } else {
        prelen
    };
    assert(post.room_names()[jm] == rm);
    assert(post.room_at(jm) == mid.room_at(jm));
    if pre.has_room(rm) {
        assert(mid.room_at(jm).member_list().contains(un));
    } else {
        assert(mid.room_at(jm).member_list() == seq![un]);
        assert(mid.room_at(jm).member_list()[0] == un);
        assert(mid.room_at(jm).member_list().contains(un));
    }
    assert(post.room_at(jm).member_list().contains(un));
    post.lemma_room_index(rm);
    assert(post.room_index(rm) == jm);
    assert(post.has_room(rm));
    post.lemma_user_index(un);
    assert(post.user_index(un) == i);
    // membership, both directions
    assert forall|u: Seq<char>, r: Seq<char>| #[trigger] post.in_user_rooms(u, r) implies
        post.in_members(r, u) by {
        let k = choose|k: int|
            0 <= k < post.user_names().len() && post.user_names()[k] == u && (
            #[trigger] post.user_at(k)).room_list().contains(r);
        if k == i && r == rm {
            assert(post.room_at(jm).member_list().contains(un));
            assert(post.room_names()[jm] == r);
        } else {
            assert(pre.user_at(k).room_list().contains(r));
            assert(pre.in_user_rooms(u, r));
            let j = choose|j: int|
                0 <= j < pre.room_names().len() && pre.room_names()[j] == r && (
                #[trigger] pre.room_at(j)).member_list().contains(u);
            assert(post.room_names()[j] == r);
            if j == jm {
                assert(post.room_at(j).member_list().contains(u));
            } else {
                assert(post.room_at(j) == pre.room_at(j));
            }
        }
    }
    assert forall|u: Seq<char>, r: Seq<char>| #[trigger] post.in_members(r, u) implies
        post.in_user_rooms(u, r) by {
        let j = choose|j: int|
            0 <= j < post.room_names().len() && post.room_names()[j] == r && (
            #[trigger] post.room_at(j)).member_list().contains(u);
        if j == jm && u == un {
            assert(post.user_names()[i] == u);
            assert(post.user_at(i).room_list().contains(rm));
            assert(post.room_names()[jm] == rm);
            assert(r == rm);
        } else if j == jm {
            // an old member of rm, unchanged on the user side
            assert(r == rm);
            if pre.has_room(rm) {
                assert(pre.room_at(j).member_list().contains(u));
                assert(pre.in_members(r, u));
                let k = choose|k: int|
                    0 <= k < pre.user_names().len() && pre.user_names()[k] == u && (
                    #[trigger] pre.user_at(k)).room_list().contains(r);
                assert(post.user_names()[k] == u);
                if k == i {
                    assert(post.user_at(i).room_list().contains(r));
                } else {
                    assert(post.user_at(k) == pre.user_at(k));
                }
            } else {
                assert(mid.room_at(jm).member_list() == seq![un]);
                assert(u == un);
            }
        } else {
            assert(j < prelen || pre.has_room(rm));
            assert(j < pre.room_names().len());
            assert(pre.room_at(j) == post.room_at(j));
            assert(pre.room_names()[j] == r);
            assert(pre.in_members(r, u));
            let k = choose|k: int|
                0 <= k < pre.user_names().len() && pre.user_names()[k] == u && (
                #[trigger] pre.user_at(k)).room_list().contains(r);
            assert(post.user_names()[k] == u);
            if k == i {
                assert(post.user_at(i).room_list().contains(r));
            } else {
                assert(post.user_at(k) == pre.user_at(k));
            }
        }
    }
    assert(post.wf());
    // the stated effect
    assert forall|x: Seq<char>| #[trigger] pre.has_user(x) implies post.user_mailbox(x)
        == pre.user_mailbox(x) && post.user_sent(x) == pre.user_sent(x) by {
        pre.lemma_user_index(x);
        post.lemma_user_index(x);
        let k = pre.user_index(x);
        assert(post.user_names()[k] == x);
        assert(post.user_index(x) == k);
        if k != i {
            assert(post.user_at(k) == pre.user_at(k));
        }
    }
    assert forall|x: Seq<char>| x != un && #[trigger] pre.has_user(x) implies post.user_rooms(x)
        == pre.user_rooms(x) by {
        pre.lemma_user_index(x);
        post.lemma_user_index(x);
        let k = pre.user_index(x);
        assert(k != i);
        assert(post.user_names()[k] == x);
        assert(post.user_index(x) == k);
        assert(post.user_at(k) == pre.user_at(k));
    }
    assert(pre.user_rooms(un) == pre.user_at(i).room_list());
    assert(post.user_rooms(un) == post.user_at(i).room_list());
    assert forall|r2: Seq<char>| r2 != rm && #[trigger] pre.has_room(r2) implies post.members(r2)
        == pre.members(r2) by {
        pre.lemma_room_index(r2);
        let j = pre.room_index(r2);
        assert(post.room_names()[j] == r2);
        assert(post.has_room(r2));
        post.lemma_room_index(r2);
        assert(post.room_index(r2) == j);
        assert(j != jm);
        assert(post.room_at(j) == mid.room_at(j));
        assert(mid.room_at(j) == pre.room_at(j));
    }
    assert(post.members(rm) == post.room_at(jm).member_list());
    if pre.has_room(rm) {
        assert(pre.members(rm) == pre.room_at(jm).member_list());
    } else {
        assert(post.members(rm) =~= seq![un]);
    }
}

/// What a successful `leave_room(rm, u)` does: `u` is out of `rm`, the room
/// is gone if `u` was its last member, and nothing else moves.
pub open spec fn spec_leave_room(pre: ServerState, post: ServerState, rm: Seq<char>, u: Seq<
    char,
>) -> bool {
    &&& post.user_names() == pre.user_names()
    &&& forall|x: Seq<char>|
        #[trigger] pre.has_user(x) ==> post.user_mailbox(x) == pre.user_mailbox(x)
            && post.user_sent(x) == pre.user_sent(x)
    &&& forall|x: Seq<char>|
        x != u && #[trigger] pre.has_user(x) ==> post.user_rooms(x) == pre.user_rooms(x)
    &&& forall|r2: Seq<char>|
        #[trigger] post.user_rooms(u).contains(r2) <==> (pre.user_rooms(u).contains(r2) && r2
            != rm)
    &&& post.user_rooms(u).len() == pre.user_rooms(u).len() - 1
    &&& pre.members(rm).len() == 1 ==> post.room_names() == pre.room_names().remove(
        pre.room_index(rm),
    )
    &&& pre.members(rm).len() != 1 ==> post.room_names() == pre.room_names()
    &&& (post.has_room(rm) <==> pre.members(rm).len() != 1)
    &&& forall|r2: Seq<char>|
        r2 != rm && #[trigger] pre.has_room(r2) ==> post.has_room(r2) && post.members(r2)
            == pre.members(r2)
    &&& post.has_room(rm) ==> post.members(rm).len() == pre.members(rm).len() - 1
    &&& post.has_room(rm) ==> forall|x: Seq<char>|
        #[trigger] post.members(rm).contains(x) <==> (pre.members(rm).contains(x) && x != u)
}

/// The two halves of a leave — the room side already updated in `mid`, the
/// user side updated in `post` — add up to a well-formed registry and the
/// stated effect.
proof fn lemma_leave_room_post(
    pre: ServerState,
    mid: ServerState,
    post: ServerState,
    rm: Seq<char>,
    un: Seq<char>,
    i: int,
    j: int,
)
    requires
        pre.wf(),
        0 <= j < pre.room_names().len(),
        pre.room_names()[j] == rm,
        pre.room_index(rm) == j,
        pre.room_at(j).member_list().contains(un),
        0 <= i < pre.user_names().len(),
        pre.user_names()[i] == un,
        pre.user_index(un) == i,
        // the room side of the update
        mid.user_names() == pre.user_names(),
        forall|k: int| 0 <= k < mid.user_names().len() ==> mid.user_at(k) == pre.user_at(k),
        pre.room_at(j).member_list().len() == 1 ==> mid.room_names() == pre.room_names().remove(
            j,
        ),
        pre.room_at(j).member_list().len() == 1 ==> forall|k: int|
            0 <= k < j ==> mid.room_at(k) == pre.room_at(k),
        pre.room_at(j).member_list().len() == 1 ==> forall|k: int|
            j <= k < mid.room_names().len() ==> mid.room_at(k) == pre.room_at(k + 1),
        pre.room_at(j).member_list().len() != 1 ==> mid.room_names() == pre.room_names(),
        pre.room_at(j).member_list().len() != 1 ==> forall|k: int|
            0 <= k < pre.room_names().len() && k != j ==> mid.room_at(k) == pre.room_at(k),
        pre.room_at(j).member_list().len() != 1 ==> {
            let newroom = mid.room_at(j);
            &&& newroom.wf()
            &&& newroom.member_list().len() == pre.room_at(j).member_list().len() - 1
            &&& forall|x: Seq<char>|
                newroom.member_list().contains(x) <==> (pre.room_at(j).member_list().contains(x)
                    && x != un)
        },
        // the user side of the update
        post.user_names() == pre.user_names(),
        post.room_names() == mid.room_names(),
        forall|k: int|
            0 <= k < post.user_names().len() && k != i ==> post.user_at(k) == pre.user_at(k),
        forall|k: int| 0 <= k < post.room_names().len() ==> post.room_at(k) == mid.room_at(k),
        post.user_at(i).wf(),
        post.user_at(i).mailbox() == pre.user_at(i).mailbox(),
        post.user_at(i).sent_log() == pre.user_at(i).sent_log(),
        pre.user_at(i).room_list().contains(rm),
        exists|k: int|
            0 <= k < pre.user_at(i).room_list().len() && pre.user_at(i).room_list()[k] == rm
                && post.user_at(i).room_list() == pre.user_at(i).room_list().remove(k),
        forall|r: Seq<char>|
            post.user_at(i).room_list().contains(r) <==> (pre.user_at(i).room_list().contains(r)
                && r != rm),
    ensures
        post.wf(),
        spec_leave_room(pre, post, rm, un),
{
    let emptied = pre.room_at(j).member_list().len() == 1;
    let prelen = pre.room_names().len() as int;
    if emptied {
        pre.room_names().remove_ensures(j);
    }
    assert(post.user_at(i).room_list().len() == pre.user_at(i).room_list().len() - 1) by {
        let k = choose|k: int|
            0 <= k < pre.user_at(i).room_list().len() && pre.user_at(i).room_list()[k] == rm
                && post.user_at(i).room_list() == pre.user_at(i).room_list().remove(k);
        pre.user_at(i).room_list().remove_ensures(k);
    }
    // key distinctness and shapes of the new room table
    assert(distinct_seq(post.room_names()) && forall|k: int|
        0 <= k < post.room_names().len() ==> valid_room_name(#[trigger] post.room_names()[k])
            && (#[trigger] post.room_at(k)).wf() && post.room_at(k).member_list().len() > 0) by {
        assert forall|k: int| 0 <= k < post.room_names().len() implies valid_room_name(
            #[trigger] post.room_names()[k],
        ) && (#[trigger] post.room_at(k)).wf() && post.room_at(k).member_list().len() > 0 by {
            assert(post.room_at(k) == mid.room_at(k));
            if emptied {
                if k < j {
                    assert(mid.room_at(k) == pre.room_at(k));
                    assert(post.room_names()[k] == pre.room_names()[k]);
                } else {
                    assert(mid.room_at(k) == pre.room_at(k + 1));
                    assert(post.room_names()[k] == pre.room_names()[k + 1]);
                }
            } else {
                assert(post.room_names()[k] == pre.room_names()[k]);
                if k != j {
                    assert(mid.room_at(k) == pre.room_at(k));
                } else {
                    assert(mid.room_at(j).member_list().len() == pre.room_at(
                        j,
                    ).member_list().len() - 1);
                    assert(pre.room_at(j).member_list().len() > 1);
                }
            }
        }
        if emptied {
            assert forall|a: int, b: int|
                0 <= a < b < post.room_names().len() implies post.room_names()[a]
                != post.room_names()[b] by {
                let a2: int = if a < j {
                    a
                } else {
                    a + 1
                };
                let b2: int = if b < j {
                    b
                } else {
                    b + 1
                };
                assert(post.room_names()[a] == pre.room_names()[a2]);
                assert(post.room_names()[b] == pre.room_names()[b2]);
            }
        }
    }
    // where rm went
    assert(!post.has_room(rm) <==> emptied) by {
        if emptied {
            if post.has_room(rm) {
                let k = choose|k: int|
                    0 <= k < post.room_names().len() && post.room_names()[k] == rm;
                let k2: int = if k < j {
                    k
                } else {
                    k + 1
                };
                assert(pre.room_names()[k2] == rm);
                assert(k2 != j);
                assert(pre.room_names()[j] == rm);
            }
        } else {
            assert(post.room_names()[j] == rm);
        }
    }
    // membership, both directions
    assert forall|x: Seq<char>, r2: Seq<char>| #[trigger] post.in_user_rooms(x, r2) implies
        post.in_members(r2, x) by {
        let k = choose|k: int|
            0 <= k < post.user_names().len() && post.user_names()[k] == x && (
            #[trigger] post.user_at(k)).room_list().contains(r2);
        let urec = if k == i {
            pre.user_at(i)
        } else {
            pre.user_at(k)
        };
        if k == i {
            assert(pre.user_at(i).room_list().contains(r2) && r2 != rm);
        } else {
            assert(post.user_at(k) == pre.user_at(k));
        }
        assert(pre.user_names()[k] == x);
        assert(pre.user_at(k).room_list().contains(r2));
        assert(pre.in_user_rooms(x, r2));
        let j2 = choose|j2: int|
            0 <= j2 < pre.room_names().len() && pre.room_names()[j2] == r2 && (
            #[trigger] pre.room_at(j2)).member_list().contains(x);
        if j2 == j && r2 == rm {
            // then x is a member of rm other than un (if x == un then k == i, but
            // post.user_at(i) no longer lists rm)
            assert(x != un) by {
                if x == un {
                    assert(k == i);
                }
            }
            assert(!emptied) by {
                if emptied {
                    assert(pre.room_at(j).member_list().len() == 1);
                    let a = choose|a: int|
                        0 <= a < pre.room_at(j).member_list().len() && pre.room_at(
                            j,
                        ).member_list()[a] == x;
                    let b = choose|b: int|
                        0 <= b < pre.room_at(j).member_list().len() && pre.room_at(
                            j,
                        ).member_list()[b] == un;
                    assert(a == 0 && b == 0);
                }
            }
            assert(mid.room_at(j).member_list().contains(x));
            assert(post.room_names()[j] == rm);
            assert(post.room_at(j) == mid.room_at(j));
            assert(post.in_members(r2, x));
        } else if j2 == j {
            // r2 == rm's name is unique, so j2 == j means r2 == rm
            assert(r2 == rm);
        } else {
            // a room other than rm, unchanged; find its slot in post
            let jp: int = if emptied && j2 > j {
                j2 - 1
            } else {
                j2
            };
            if emptied {
                if j2 < j {
                    assert(mid.room_at(jp) == pre.room_at(j2));
                    assert(mid.room_names()[jp] == pre.room_names()[j2]);
                } else {
                    assert(jp >= j);
                    assert(mid.room_at(jp) == pre.room_at(jp + 1));
                    assert(mid.room_names()[jp] == pre.room_names()[j2]);
                }
            } else {
                assert(mid.room_at(jp) == pre.room_at(j2));
            }
            assert(post.room_names()[jp] == r2);
            assert(post.room_at(jp) == mid.room_at(jp));
            assert(post.room_at(jp).member_list().contains(x));
            assert(post.in_members(r2, x));
        }
    }
    assert forall|x: Seq<char>, r2: Seq<char>| #[trigger] post.in_members(r2, x) implies
        post.in_user_rooms(x, r2) by {
        let jp = choose|jp: int|
            0 <= jp < post.room_names().len() && post.room_names()[jp] == r2 && (
            #[trigger] post.room_at(jp)).member_list().contains(x);
        let j2: int = if emptied && jp >= j {
            jp + 1
        } else {
            jp
        };
        assert(post.room_at(jp) == mid.room_at(jp));
        if emptied {
            if jp < j {
                assert(mid.room_at(jp) == pre.room_at(jp));
            } else {
                assert(mid.room_at(jp) == pre.room_at(jp + 1));
            }
            assert(pre.room_names()[j2] == r2);
            assert(pre.room_at(j2).member_list().contains(x));
        } else {
            if jp != j {
                assert(mid.room_at(jp) == pre.room_at(jp));
                assert(pre.room_at(j2).member_list().contains(x));
            } else {
                assert(r2 == rm);
                assert(mid.room_at(j).member_list().contains(x));
                assert(pre.room_at(j).member_list().contains(x) && x != un);
            }
            assert(pre.room_names()[j2] == r2);
        }
        assert(pre.in_members(r2, x));
        let k = choose|k: int|
            0 <= k < pre.user_names().len() && pre.user_names()[k] == x && (
            #[trigger] pre.user_at(k)).room_list().contains(r2);
        // x never equals un with r2 == rm here: rm either vanished or lost un
        assert(!(x == un && r2 == rm)) by {
            if x == un && r2 == rm {
                if emptied {
                    assert(!post.has_room(rm));
                    assert(post.room_names()[jp] == rm);
                } else {
                    assert(jp == j) by {
                        if jp != j {
                            assert(mid.room_at(jp) == pre.room_at(jp));
                            assert(pre.room_names()[jp] == r2);
                            assert(pre.room_names()[j] == rm);
                        }
                    }
                    assert(!mid.room_at(j).member_list().contains(un));
                }
            }
        }
        assert(post.user_names()[k] == x);
        if k == i {
            assert(x == un);
            assert(r2 != rm);
            assert(post.user_at(i).room_list().contains(r2));
        } else {
            assert(post.user_at(k) == pre.user_at(k));
            assert(post.user_at(k).room_list().contains(r2));
        }
        assert(post.in_user_rooms(x, r2));
    }
    // user-table invariants
    assert forall|k: int| 0 <= k < post.user_names().len() implies (#[trigger] post.user_at(
        k,
    )).wf() by {
        if k != i {
            assert(post.user_at(k) == pre.user_at(k));
        }
    }
    assert forall|k: int| 0 <= k < post.user_names().len() implies valid_user_name(
        #[trigger] post.user_names()[k],
    ) by {
        assert(post.user_names()[k] == pre.user_names()[k]);
    }
    assert(post.wf());
    // the stated effect
    post.lemma_user_index(un);
    assert(post.user_index(un) == i);
    assert forall|x: Seq<char>| #[trigger] pre.has_user(x) implies post.user_mailbox(x)
        == pre.user_mailbox(x) && post.user_sent(x) == pre.user_sent(x) by {
        pre.lemma_user_index(x);
        let k = pre.user_index(x);
        assert(post.user_names()[k] == x);
        assert(post.has_user(x));
        post.lemma_user_index(x);
        assert(post.user_index(x) == k);
        if k != i {
            assert(post.user_at(k) == pre.user_at(k));
        }
    }
    assert forall|x: Seq<char>| x != un && #[trigger] pre.has_user(x) implies post.user_rooms(x)
        == pre.user_rooms(x) by {
        pre.lemma_user_index(x);
        let k = pre.user_index(x);
        assert(k != i);
        assert(post.user_names()[k] == x);
        assert(post.has_user(x));
        post.lemma_user_index(x);
        assert(post.user_index(x) == k);
        assert(post.user_at(k) == pre.user_at(k));
    }
    assert(pre.user_rooms(un) == pre.user_at(i).room_list());
    assert(post.user_rooms(un) == post.user_at(i).room_list());
    assert(pre.members(rm) == pre.room_at(j).member_list());
    if !emptied {
        assert(post.room_names()[j] == rm);
        post.lemma_room_index(rm);
        assert(post.room_index(rm) == j);
        assert(post.members(rm) == post.room_at(j).member_list());
        assert(post.room_at(j) == mid.room_at(j));
    }
    assert forall|r2: Seq<char>| r2 != rm && #[trigger] pre.has_room(r2) implies post.has_room(
        r2,
    ) && post.members(r2) == pre.members(r2) by {
        pre.lemma_room_index(r2);
        let j2 = pre.room_index(r2);
        assert(j2 != j);
        let jp: int = if emptied && j2 > j {
            j2 - 1
        } else {
            j2
        };
        if emptied {
            if j2 < j {
                assert(mid.room_at(jp) == pre.room_at(j2));
                assert(post.room_names()[jp] == pre.room_names()[j2]);
            } else {
                assert(mid.room_at(jp) == pre.room_at(jp + 1));
                assert(post.room_names()[jp] == pre.room_names()[j2]);
            }
        } else {
            assert(mid.room_at(jp) == pre.room_at(j2));
            assert(post.room_names()[jp] == pre.room_names()[j2]);
        }
        assert(post.room_names()[jp] == r2);
        assert(post.has_room(r2));
        post.lemma_room_index(r2);
        assert(post.room_index(r2) == jp);
        assert(post.room_at(jp) == mid.room_at(jp));
        assert(post.members(r2) == pre.members(r2));
    }
}

impl ServerState {
    /// Removes `user_name` from `room_name`, deleting the room when its
    /// member set empties.  Fails, changing nothing, when the room is
    /// unknown or the user is not in it.
    pub fn leave_room(&mut self, room_name: &str, user_name: &str) -> (r: Result<(),
        ServerError,
    >)
        requires
            old(self).wf(),
        ensures
            final(self).wf(),
            r is Ok <==> (old(self).has_room(room_name@) && old(self).members(
                room_name@,
            ).contains(user_name@)),
            r is Ok ==> spec_leave_room(*old(self), *final(self), room_name@, user_name@),
            r is Err ==> *final(self) == *old(self),
            r matches Err(e) ==> if !old(self).has_room(room_name@) {
                is_room_unknown(e, room_name@)
            } else {
                is_user_not_in_room(e, user_name@, room_name@)
            },
    {
        let ghost pre = *self;
        let ghost rm = room_name@;
        let ghost un = user_name@;
        let j = match self.find_room(room_name) {
            Some(j) => j,
            None => {
                return Err(ServerError::RoomUnknown(room_name.to_owned()));
            },
        };
        proof {
            pre.lemma_room_index(rm);
            assert(pre.room_index(rm) == j as int);
            assert(pre.room_at(j as int).wf());
        }
        if !vec_contains_str(&self.rooms[j].1.users, user_name) {
            proof {
                assert(!pre.room_at(j as int).member_list().contains(un));
                assert(!pre.members(rm).contains(un));
            }
            return Err(
                ServerError::UserNotInRoom(user_name.to_owned(), room_name.to_owned()),
            );
        }
        proof {
            assert(pre.room_at(j as int).member_list().contains(un));
            assert(pre.members(rm).contains(un));
            // the member is a registered user, by the registry invariant
            assert(pre.in_members(rm, un));
            assert(pre.in_user_rooms(un, rm));
            assert(pre.has_user(un)) by {
                let k = choose|k: int|
                    0 <= k < pre.user_names().len() && pre.user_names()[k] == un && (
                    #[trigger] pre.user_at(k)).room_list().contains(rm);
            }
            pre.lemma_user_index(un);
        }
        let was_member = self.rooms[j].1.remove_user(user_name);
        proof {
            assert(was_member);
        }
        if self.rooms[j].1.is_empty() {
            self.rooms.remove(j);
            proof {
                assert(pre.room_at(j as int).member_list().len() == 1);
                assert(self.room_names() =~= pre.room_names().remove(j as int));
                pre.room_names().remove_ensures(j as int);
            }
        } else {
            proof {
                assert(self.room_names() =~= pre.room_names());
            }
        }
        let ghost mid = *self;
        let i = match self.find_user(user_name) {
            Some(i) => i,
            None => {
                proof {
                    assert(self.user_names() =~= pre.user_names());
                    assert(false);
                }
                return Ok(());
            },
        };
        proof {
            assert(self.user_names() =~= pre.user_names());
            assert(pre.user_names()[i as int] == un);
            assert(pre.user_index(un) == i as int);
            assert(self.users == pre.users);
            assert(self.users@[i as int].1 == pre.user_at(i as int));
            assert(pre.user_at(i as int).wf());
        }
        self.users[i].1.remove_room(room_name);
        proof {
            assert(self.users@ =~= mid.users@.update(i as int, self.users@[i as int]));
            assert(self.users@[i as int].0 == pre.users@[i as int].0);
            assert(self.user_at(i as int).sent_log() == pre.user_at(i as int).sent_log());
            assert(self.user_names() =~= pre.user_names());
            assert(mid.users == pre.users);
            assert(mid.user_names() =~= pre.user_names());
            assert(forall|k: int|
                0 <= k < mid.user_names().len() ==> mid.user_at(k) == pre.user_at(k));
            assert(self.rooms == mid.rooms);
            assert(self.room_names() =~= mid.room_names());
            assert(forall|k: int|
                0 <= k < self.user_names().len() && k != i as int ==> self.user_at(k)
                    == pre.user_at(k));
            assert(forall|k: int|
                0 <= k < self.room_names().len() ==> self.room_at(k) == mid.room_at(k));
            assert(pre.user_at(i as int).room_list().contains(rm));
            let emptied = pre.room_at(j as int).member_list().len() == 1;
            if emptied {
                assert(mid.room_names() =~= pre.room_names().remove(j as int));
                pre.room_names().remove_ensures(j as int);
                assert(mid.rooms@ =~= pre.rooms@.remove(j as int));
                pre.rooms@.remove_ensures(j as int);
                assert forall|k: int| 0 <= k < j as int implies mid.room_at(k) == pre.room_at(
                    k,
                ) by {
                    assert(mid.rooms@[k] == pre.rooms@[k]);
                }
                assert forall|k: int| j as int <= k < mid.room_names().len() implies
                    mid.room_at(k) == pre.room_at(k + 1) by {
                    assert(mid.rooms@[k] == pre.rooms@[k + 1]);
                }
            } else {
                assert(mid.room_names() =~= pre.room_names());
                assert forall|k: int|
                    0 <= k < pre.room_names().len() && k != j as int implies mid.room_at(k)
                    == pre.room_at(k) by {
                    assert(mid.rooms@[k] == pre.rooms@[k]);
                }
            }
            lemma_leave_room_post(pre, mid, *self, rm, un, i as int, j as int);
        }
        Ok(())
    }
}

/// A room record after a rename swept through it: `a` replaced by `b`, the
/// member count kept.
pub open spec fn renamed_room(oldr: Room, newr: Room, a: Seq<char>, b: Seq<char>) -> bool {
    &&& newr.member_list().len() == oldr.member_list().len()
    &&& forall|x: Seq<char>|
        newr.member_list().contains(x) <==> ((oldr.member_list().contains(x) && x != a) || x
            == b)
}

/// What a successful `rename_user(a, b)` does: the user is re-keyed to `b`
/// with their room set and mailbox intact, every room's member set follows,
/// and nothing else moves.
pub open spec fn spec_rename_user(pre: ServerState, post: ServerState, a: Seq<char>, b: Seq<
    char,
>) -> bool {
    &&& post.user_names() == pre.user_names().update(pre.user_index(a), b)
    &&& !post.has_user(a)
    &&& post.has_user(b)
    &&& post.user_rooms(b) == pre.user_rooms(a)
    &&& post.user_mailbox(b) == pre.user_mailbox(a)
    &&& post.user_sent(b) == pre.user_sent(a)
    &&& forall|x: Seq<char>|
        x != a && #[trigger] pre.has_user(x) ==> post.has_user(x) && post.user_rooms(x)
            == pre.user_rooms(x) && post.user_mailbox(x) == pre.user_mailbox(x)
            && post.user_sent(x) == pre.user_sent(x)
    &&& post.room_names() == pre.room_names()
    &&& forall|rm: Seq<char>|
        #[trigger] pre.has_room(rm) ==> post.members(rm).len() == pre.members(rm).len()
    &&& forall|rm: Seq<char>, x: Seq<char>|
        pre.has_room(rm) ==> ((#[trigger] post.members(rm).contains(x)) <==> ((pre.members(
            rm,
        ).contains(x) && x != a) || (x == b && pre.members(rm).contains(a))))
}

impl ServerState {
    /// Atomically re-keys a user from `old_name` to `new_name`, carrying
    /// their room set and mailbox over and updating every room's member
    /// set.  Fails, changing nothing, when `old_name` is unknown or
    /// `new_name` is already taken.
    pub fn rename_user(&mut self, old_name: &str, new_name: &str) -> (r: Result<(),
        ServerError,
    >)
        requires
            old(self).wf(),
            valid_user_name(new_name@),
        ensures
            final(self).wf(),
            r is Ok <==> (old(self).has_user(old_name@) && !old(self).has_user(new_name@)),
            r is Ok ==> spec_rename_user(*old(self), *final(self), old_name@, new_name@),
            r is Err ==> *final(self) == *old(self),
            r matches Err(e) ==> if !old(self).has_user(old_name@) {
                is_user_unknown(e, old_name@)
            } else {
                is_user_already_exists(e, new_name@)
            },
    {
        let ghost pre = *self;
        let ghost a = old_name@;
        let ghost b = new_name@;
        let i = match self.find_user(old_name) {
            Some(i) => i,
            None => {
                return Err(ServerError::UserUnknown(old_name.to_owned()));
            },
        };
        if self.contains_user(new_name) {
            return Err(ServerError::UserAlreadyExists(new_name.to_owned()));
        }
        proof {
            pre.lemma_user_index(a);
            assert(pre.user_index(a) == i as int);
            assert(pre.user_at(i as int).wf());
        }
        // re-key the user record
        self.users[i].0 = new_name.to_owned();
        proof {
            assert(self.user_names() =~= pre.user_names().update(i as int, b));
            assert(forall|t: int|
                0 <= t < self.users@.len() ==> self.user_at(t) == pre.user_at(t));
        }
        // sweep the user's rooms, swapping the member name
        let ghost rlist = pre.user_at(i as int).room_list();
        let mut k: usize = 0;
        while k < self.users[i].1.rooms.len()
            invariant
                pre.wf(),
                a == old_name@,
                b == new_name@,
                valid_user_name(b),
                !pre.has_user(b),
                0 <= i < self.users@.len(),
                self.users@.len() == pre.users@.len(),
                pre.user_names()[i as int] == a,
                0 <= k <= rlist.len(),
                self.users@[i as int].1.room_list() == rlist,
                rlist == pre.user_at(i as int).room_list(),
                self.user_names() == pre.user_names().update(i as int, b),
                forall|t: int| 0 <= t < self.users@.len() ==> self.user_at(t) == pre.user_at(t),
                self.room_names() == pre.room_names(),
                forall|j2: int|
                    0 <= j2 < pre.room_names().len() && !rlist.subrange(0, k as int).contains(
                        pre.room_names()[j2],
                    ) ==> #[trigger] self.room_at(j2) == pre.room_at(j2),
                forall|j2: int|
                    0 <= j2 < pre.room_names().len() && rlist.subrange(0, k as int).contains(
                        pre.room_names()[j2],
                    ) ==> renamed_room(pre.room_at(j2), #[trigger] self.room_at(j2), a, b)
                        && self.room_at(j2).wf(),
            decreases rlist.len() - k,
        {
            let rn = self.users[i].1.rooms[k].clone();
            proof {
                assert(rn@ == rlist[k as int]);
                assert(pre.user_at(i as int).room_list().contains(rn@));
                assert(pre.in_user_rooms(a, rn@)) by {
                    assert(pre.user_names()[i as int] == a);
                }
                assert(pre.in_members(rn@, a));
                assert(pre.has_room(rn@)) by {
                    let j2 = choose|j2: int|
                        0 <= j2 < pre.room_names().len() && pre.room_names()[j2] == rn@ && (
                        #[trigger] pre.room_at(j2)).member_list().contains(a);
                }
            }
            let j = match self.find_room(rn.as_str()) {
                Some(j) => j,
                None => {
                    proof {
                        assert(self.has_room(rn@)) by {
                            pre.lemma_room_index(rn@);
                            assert(self.room_names()[pre.room_index(rn@)] == rn@);
                        }
                        assert(false);
                    }
                    return Ok(());
                },
            };
            let ghost looppre = *self;
            proof {
                pre.lemma_room_index(rn@);
                assert(pre.room_index(rn@) == j as int);
                // this room has not been swept yet: the sweep list is distinct
                assert(!rlist.subrange(0, k as int).contains(rn@)) by {
                    if rlist.subrange(0, k as int).contains(rn@) {
                        let t = choose|t: int|
                            0 <= t < k as int && rlist.subrange(0, k as int)[t] == rn@;
                        assert(rlist[t] == rn@ && rlist[k as int] == rn@ && t != k as int);
                        assert(pre.user_at(i as int).wf());
                    }
                }
                assert(self.room_at(j as int) == pre.room_at(j as int));
                assert(self.rooms@[j as int].1 == pre.room_at(j as int));
                assert(pre.room_at(j as int).wf());
                assert(pre.room_at(j as int).member_list().contains(a));
                // b is nowhere a member: it is no registered user
                assert(!pre.room_at(j as int).member_list().contains(b)) by {
                    if pre.room_at(j as int).member_list().contains(b) {
                        assert(pre.in_members(rn@, b)) by {
                            assert(pre.room_names()[j as int] == rn@);
                        }
                        assert(pre.in_user_rooms(b, rn@));
                        let t = choose|t: int|
                            0 <= t < pre.user_names().len() && pre.user_names()[t] == b && (
                            #[trigger] pre.user_at(t)).room_list().contains(rn@);
                    }
                }
            }
            let removed = self.rooms[j].1.remove_user(old_name);
            proof {
                assert(removed);
            }
            self.rooms[j].1.add_user(new_name.to_owned());
            proof {
                let oldroom = pre.room_at(j as int);
                let newroom = self.rooms@[j as int].1;
                assert(newroom.member_list().len() == oldroom.member_list().len());
                assert(renamed_room(oldroom, newroom, a, b)) by {
                    assert forall|x: Seq<char>|
                        newroom.member_list().contains(x) <==> ((oldroom.member_list().contains(
                            x,
                        ) && x != a) || x == b) by {}
                }
                assert(self.rooms@ =~= looppre.rooms@.update(j as int, self.rooms@[j as int]));
                assert(self.room_names() =~= pre.room_names());
                assert(self.room_names() == pre.room_names());
                assert(self.users == looppre.users);
                assert(rlist.subrange(0, k as int + 1) =~= rlist.subrange(0, k as int).push(
                    rlist[k as int],
                ));
                assert(rlist.subrange(0, k as int + 1)[k as int] == rlist[k as int]);
                assert(rlist.subrange(0, k as int + 1).contains(rlist[k as int]));
                assert(pre.room_names()[j as int] == rn@);
                assert forall|j2: int|
                    0 <= j2 < pre.room_names().len() && !rlist.subrange(0, k as int + 1).contains(
                        pre.room_names()[j2],
                    ) implies #[trigger] self.room_at(j2) == pre.room_at(j2) by {
                    assert(j2 != j as int);
                    assert(self.room_at(j2) == looppre.room_at(j2));
                    assert(!rlist.subrange(0, k as int).contains(pre.room_names()[j2]));
                }
                assert forall|j2: int|
                    0 <= j2 < pre.room_names().len() && rlist.subrange(0, k as int + 1).contains(
                        pre.room_names()[j2],
                    ) implies renamed_room(pre.room_at(j2), #[trigger] self.room_at(j2), a, b)
                    && self.room_at(j2).wf() by {
                    if j2 != j as int {
                        assert(self.room_at(j2) == looppre.room_at(j2));
                        assert(pre.room_names()[j2] != rn@) by {
                            assert(pre.room_names()[j as int] == rn@);
                        }
                        assert(rlist.subrange(0, k as int).contains(pre.room_names()[j2])) by {
                            let t = choose|t: int|
                                0 <= t < k as int + 1 && #[trigger] rlist.subrange(
                                    0,
                                    k as int + 1,
                                )[t] == pre.room_names()[j2];
                            assert(t < k as int);
                            assert(rlist.subrange(0, k as int)[t] == pre.room_names()[j2]);
                        }
                    }
                }
            }
            k += 1;
        }
        proof {
            assert(k as int == rlist.len());
            assert(rlist.subrange(0, rlist.len() as int) =~= rlist);
            lemma_rename_user_post(pre, *self, a, b, i as int);
        }
        Ok(())
    }
}

/// After the re-key and the sweep, the registry is well formed and the
/// rename's effect holds.
proof fn lemma_rename_user_post(
    pre: ServerState,
    post: ServerState,
    a: Seq<char>,
    b: Seq<char>,
    i: int,
)
    requires
        pre.wf(),
        valid_user_name(b),
        !pre.has_user(b),
        0 <= i < pre.user_names().len(),
        pre.user_names()[i] == a,
        pre.user_index(a) == i,
        post.user_names() == pre.user_names().update(i, b),
        forall|t: int| 0 <= t < pre.user_names().len() ==> post.user_at(t) == pre.user_at(t),
        post.room_names() == pre.room_names(),
        forall|j2: int|
            0 <= j2 < pre.room_names().len() && !pre.user_at(i).room_list().contains(
                pre.room_names()[j2],
            ) ==> #[trigger] post.room_at(j2) == pre.room_at(j2),
        forall|j2: int|
            0 <= j2 < pre.room_names().len() && pre.user_at(i).room_list().contains(
                pre.room_names()[j2],
            ) ==> renamed_room(pre.room_at(j2), #[trigger] post.room_at(j2), a, b)
                && post.room_at(j2).wf(),
    ensures
        post.wf(),
        spec_rename_user(pre, post, a, b),
{
    let rlist = pre.user_at(i).room_list();
    assert(a != b);
    assert(distinct_seq(post.user_names())) by {
        assert forall|s: int, t: int|
            0 <= s < t < post.user_names().len() implies post.user_names()[s]
            != post.user_names()[t] by {
            if s != i && t != i {
                assert(pre.user_names()[s] != pre.user_names()[t]);
            } else if s == i {
                assert(post.user_names()[t] == pre.user_names()[t]);
                assert(!pre.has_user(b) ==> pre.user_names()[t] != b);
            } else {
                assert(post.user_names()[s] == pre.user_names()[s]);
                assert(!pre.has_user(b) ==> pre.user_names()[s] != b);
            }
        }
    }
    assert forall|t: int| 0 <= t < post.user_names().len() implies valid_user_name(
        #[trigger] post.user_names()[t],
    ) && (#[trigger] post.user_at(t)).wf() by {
        assert(post.user_at(t) == pre.user_at(t));
        if t != i {
            assert(post.user_names()[t] == pre.user_names()[t]);
        }
    }
    assert forall|j2: int| 0 <= j2 < post.room_names().len() implies valid_room_name(
        #[trigger] post.room_names()[j2],
    ) && (#[trigger] post.room_at(j2)).wf() && post.room_at(j2).member_list().len() > 0 by {
        assert(post.room_names()[j2] == pre.room_names()[j2]);
        if !rlist.contains(pre.room_names()[j2]) {
            assert(post.room_at(j2) == pre.room_at(j2));
        } else {
            assert(renamed_room(pre.room_at(j2), post.room_at(j2), a, b));
            assert(pre.room_at(j2).member_list().len() > 0);
        }
    }
    // which rooms contain a in pre: exactly those in rlist
    assert forall|j2: int|
        0 <= j2 < pre.room_names().len() implies (pre.room_at(j2).member_list().contains(a)
        <==> rlist.contains(pre.room_names()[j2])) by {
        if pre.room_at(j2).member_list().contains(a) {
            assert(pre.in_members(pre.room_names()[j2], a)) by {
                assert(pre.room_names()[j2] == pre.room_names()[j2]);
            }
            assert(pre.in_user_rooms(a, pre.room_names()[j2]));
            let t = choose|t: int|
                0 <= t < pre.user_names().len() && pre.user_names()[t] == a && (
                #[trigger] pre.user_at(t)).room_list().contains(pre.room_names()[j2]);
            pre.lemma_user_index(a);
            assert(t == i);
        }
        if rlist.contains(pre.room_names()[j2]) {
            assert(pre.in_user_rooms(a, pre.room_names()[j2])) by {
                assert(pre.user_names()[i] == a);
            }
            let j3 = choose|j3: int|
                0 <= j3 < pre.room_names().len() && pre.room_names()[j3] == pre.room_names()[j2]
                    && (#[trigger] pre.room_at(j3)).member_list().contains(a);
            pre.lemma_room_index(pre.room_names()[j2]);
            assert(j3 == j2);
        }
    }
    // membership, both directions
    assert forall|x: Seq<char>, r2: Seq<char>| #[trigger] post.in_user_rooms(x, r2) implies
        post.in_members(r2, x) by {
        let t = choose|t: int|
            0 <= t < post.user_names().len() && post.user_names()[t] == x && (
            #[trigger] post.user_at(t)).room_list().contains(r2);
        assert(post.user_at(t) == pre.user_at(t));
        let xpre: Seq<char> = if t == i {
            a
        } else {
            x
        };
        assert(pre.user_names()[t] == xpre);
        assert(pre.in_user_rooms(xpre, r2));
        let j2 = choose|j2: int|
            0 <= j2 < pre.room_names().len() && pre.room_names()[j2] == r2 && (
            #[trigger] pre.room_at(j2)).member_list().contains(xpre);
        assert(post.room_names()[j2] == r2);
        if rlist.contains(r2) {
            assert(renamed_room(pre.room_at(j2), post.room_at(j2), a, b));
            if t == i {
                assert(post.room_at(j2).member_list().contains(b));
                assert(x == b);
            } else {
                assert(x != a) by {
                    assert(pre.user_names()[t] == x && pre.user_names()[i] == a);
                }
                assert(post.room_at(j2).member_list().contains(x));
            }
        } else {
            assert(post.room_at(j2) == pre.room_at(j2));
            assert(xpre == x) by {
                if t == i {
                    assert(pre.user_at(i).room_list().contains(r2));
                }
            }
            assert(post.room_at(j2).member_list().contains(x));
        }
        assert(post.in_members(r2, x));
    }
    assert forall|x: Seq<char>, r2: Seq<char>| #[trigger] post.in_members(r2, x) implies
        post.in_user_rooms(x, r2) by {
        let j2 = choose|j2: int|
            0 <= j2 < post.room_names().len() && post.room_names()[j2] == r2 && (
            #[trigger] post.room_at(j2)).member_list().contains(x);
        assert(pre.room_names()[j2] == r2);
        if rlist.contains(r2) {
            assert(renamed_room(pre.room_at(j2), post.room_at(j2), a, b));
            if x == b {
                assert(post.user_names()[i] == b);
                assert(post.user_at(i) == pre.user_at(i));
                assert(post.user_at(i).room_list().contains(r2));
                assert(post.in_user_rooms(b, r2));
            } else {
                assert(pre.room_at(j2).member_list().contains(x) && x != a);
                assert(pre.in_members(r2, x)) by {
                    assert(pre.room_names()[j2] == r2);
                }
                assert(pre.in_user_rooms(x, r2));
                let t = choose|t: int|
                    0 <= t < pre.user_names().len() && pre.user_names()[t] == x && (
                    #[trigger] pre.user_at(t)).room_list().contains(r2);
                assert(t != i);
                assert(post.user_names()[t] == x);
                assert(post.user_at(t) == pre.user_at(t));
                assert(post.in_user_rooms(x, r2));
            }
        } else {
            assert(post.room_at(j2) == pre.room_at(j2));
            assert(pre.in_members(r2, x)) by {
                assert(pre.room_names()[j2] == r2);
            }
            assert(pre.in_user_rooms(x, r2));
            let t = choose|t: int|
                0 <= t < pre.user_names().len() && pre.user_names()[t] == x && (
                #[trigger] pre.user_at(t)).room_list().contains(r2);
            assert(x != a) by {
                if x == a {
                    pre.lemma_user_index(a);
                    assert(t == i);
                    assert(pre.user_at(i).room_list().contains(r2));
                }
            }
            assert(post.user_names()[t] == x) by {
                assert(t != i ==> post.user_names()[t] == pre.user_names()[t]);
                if t == i {
                    assert(pre.user_names()[i] == a);
                }
            }
            assert(post.user_at(t) == pre.user_at(t));
            assert(post.in_user_rooms(x, r2));
        }
    }
    assert(post.wf());
    // the stated effect
    assert(post.user_names()[i] == b);
    post.lemma_user_index(b);
    assert(post.user_index(b) == i);
    assert(!post.has_user(a)) by {
        if post.has_user(a) {
            let t = choose|t: int|
                0 <= t < post.user_names().len() && post.user_names()[t] == a;
            assert(t != i);
            assert(pre.user_names()[t] == a);
            pre.lemma_user_index(a);
        }
    }
    assert(post.user_rooms(b) == pre.user_rooms(a));
    assert(post.user_mailbox(b) == pre.user_mailbox(a));
    assert(post.user_sent(b) == pre.user_sent(a));
    assert forall|x: Seq<char>| x != a && #[trigger] pre.has_user(x) implies post.has_user(x)
        && post.user_rooms(x) == pre.user_rooms(x) && post.user_mailbox(x) == pre.user_mailbox(
        x,
    ) && post.user_sent(x) == pre.user_sent(x) by {
        pre.lemma_user_index(x);
        let t = pre.user_index(x);
        assert(t != i);
        assert(post.user_names()[t] == x);
        assert(post.has_user(x));
        post.lemma_user_index(x);
        assert(post.user_index(x) == t);
        assert(post.user_at(t) == pre.user_at(t));
    }
    assert forall|rm: Seq<char>| #[trigger] pre.has_room(rm) implies post.members(rm).len()
        == pre.members(rm).len() && (forall|x: Seq<char>|
        (#[trigger] post.members(rm).contains(x)) <==> ((pre.members(rm).contains(x) && x != a)
            || (x == b && pre.members(rm).contains(a)))) by {
        pre.lemma_room_index(rm);
        let j2 = pre.room_index(rm);
        assert(post.room_names()[j2] == rm);
        assert(post.has_room(rm));
        post.lemma_room_index(rm);
        assert(post.room_index(rm) == j2);
        if rlist.contains(rm) {
            assert(renamed_room(pre.room_at(j2), post.room_at(j2), a, b));
            assert(pre.room_at(j2).member_list().contains(a));
        } else {
            assert(post.room_at(j2) == pre.room_at(j2));
            assert(!pre.room_at(j2).member_list().contains(a));
            assert(!pre.room_at(j2).member_list().contains(b)) by {
                if pre.room_at(j2).member_list().contains(b) {
                    assert(pre.in_members(rm, b)) by {
                        assert(pre.room_names()[j2] == rm);
                    }
                    assert(pre.in_user_rooms(b, rm));
                    let t = choose|t: int|
                        0 <= t < pre.user_names().len() && pre.user_names()[t] == b && (
                        #[trigger] pre.user_at(t)).room_list().contains(rm);
                }
            }
        }
    }
}

/// What a successful `remove_user(u)` does: the user is gone, so is their
/// membership everywhere, and with it every room whose only member they
/// were; nothing else moves.
pub open spec fn spec_remove_user(pre: ServerState, post: ServerState, u: Seq<char>) -> bool {
    &&& post.user_names() == pre.user_names().remove(pre.user_index(u))
    &&& !post.has_user(u)
    &&& forall|x: Seq<char>|
        x != u && #[trigger] pre.has_user(x) ==> post.has_user(x) && post.user_rooms(x)
            == pre.user_rooms(x) && post.user_mailbox(x) == pre.user_mailbox(x)
            && post.user_sent(x) == pre.user_sent(x)
    &&& forall|x: Seq<char>| #[trigger] post.has_user(x) ==> pre.has_user(x)
    &&& forall|rm: Seq<char>|
        #[trigger] post.has_room(rm) <==> (pre.has_room(rm) && exists|x: Seq<char>|
            #[trigger] pre.members(rm).contains(x) && x != u)
    &&& forall|rm: Seq<char>|
        #[trigger] post.has_room(rm) ==> forall|x: Seq<char>|
            #[trigger] post.members(rm).contains(x) <==> (pre.members(rm).contains(x) && x
                != u)
}

/// Dropping a room-less user entry keeps the registry well formed and
/// leaves everything else in place.
proof fn lemma_remove_user_entry(mid: ServerState, post: ServerState, u: Seq<char>, i: int)
    requires
        mid.wf(),
        0 <= i < mid.user_names().len(),
        mid.user_names()[i] == u,
        mid.user_index(u) == i,
        mid.user_at(i).room_list().len() == 0,
        post.user_names() == mid.user_names().remove(i),
        forall|t: int| 0 <= t < i ==> post.user_at(t) == mid.user_at(t),
        forall|t: int|
            i <= t < post.user_names().len() ==> post.user_at(t) == mid.user_at(t + 1),
        post.room_names() == mid.room_names(),
        forall|j2: int|
            0 <= j2 < post.room_names().len() ==> post.room_at(j2) == mid.room_at(j2),
    ensures
        post.wf(),
        !post.has_user(u),
        forall|x: Seq<char>|
            x != u && #[trigger] mid.has_user(x) ==> post.has_user(x) && post.user_rooms(x)
                == mid.user_rooms(x) && post.user_mailbox(x) == mid.user_mailbox(x)
                && post.user_sent(x) == mid.user_sent(x),
        forall|x: Seq<char>| #[trigger] post.has_user(x) ==> mid.has_user(x),
        forall|rm: Seq<char>| post.has_room(rm) <==> mid.has_room(rm),
        forall|rm: Seq<char>| #[trigger] mid.has_room(rm) ==> post.members(rm) == mid.members(rm),
{
    mid.user_names().remove_ensures(i);
    // no room lists the removed user: their own room list is empty
    assert forall|rm: Seq<char>| !(#[trigger] mid.in_members(rm, u)) by {
        if mid.in_members(rm, u) {
            assert(mid.in_user_rooms(u, rm));
            let t = choose|t: int|
                0 <= t < mid.user_names().len() && mid.user_names()[t] == u && (
                #[trigger] mid.user_at(t)).room_list().contains(rm);
            assert(t == i);
        }
    }
    assert(!post.has_user(u)) by {
        if post.has_user(u) {
            let t = choose|t: int|
                0 <= t < post.user_names().len() && post.user_names()[t] == u;
            let t2: int = if t < i {
                t
            } else {
                t + 1
            };
            assert(mid.user_names()[t2] == u);
            assert(t2 != i);
        }
    }
    assert(distinct_seq(post.user_names())) by {
        assert forall|s: int, t: int|
            0 <= s < t < post.user_names().len() implies post.user_names()[s]
            != post.user_names()[t] by {
            let s2: int = if s < i {
                s
            } else {
                s + 1
            };
            let t2: int = if t < i {
                t
            } else {
                t + 1
            };
            assert(post.user_names()[s] == mid.user_names()[s2]);
            assert(post.user_names()[t] == mid.user_names()[t2]);
        }
    }
    assert forall|t: int| 0 <= t < post.user_names().len() implies valid_user_name(
        #[trigger] post.user_names()[t],
    ) && (#[trigger] post.user_at(t)).wf() by {
        let t2: int = if t < i {
            t
        } else {
            t + 1
        };
        assert(post.user_names()[t] == mid.user_names()[t2]);
        assert(post.user_at(t) == mid.user_at(t2));
    }
    assert forall|x: Seq<char>, r2: Seq<char>| #[trigger] post.in_user_rooms(x, r2) implies
        post.in_members(r2, x) by {
        let t = choose|t: int|
            0 <= t < post.user_names().len() && post.user_names()[t] == x && (
            #[trigger] post.user_at(t)).room_list().contains(r2);
        let t2: int = if t < i {
            t
        } else {
            t + 1
        };
        assert(mid.user_names()[t2] == x);
        assert(mid.user_at(t2) == post.user_at(t));
        assert(mid.in_user_rooms(x, r2));
        let j2 = choose|j2: int|
            0 <= j2 < mid.room_names().len() && mid.room_names()[j2] == r2 && (
            #[trigger] mid.room_at(j2)).member_list().contains(x);
        assert(post.room_names()[j2] == r2);
        assert(post.room_at(j2) == mid.room_at(j2));
    }
    assert forall|x: Seq<char>, r2: Seq<char>| #[trigger] post.in_members(r2, x) implies
        post.in_user_rooms(x, r2) by {
        let j2 = choose|j2: int|
            0 <= j2 < post.room_names().len() && post.room_names()[j2] == r2 && (
            #[trigger] post.room_at(j2)).member_list().contains(x);
        assert(mid.room_at(j2) == post.room_at(j2));
        assert(mid.room_names()[j2] == r2);
        assert(mid.in_members(r2, x));
        assert(x != u);
        let t = choose|t: int|
            0 <= t < mid.user_names().len() && mid.user_names()[t] == x && (
            #[trigger] mid.user_at(t)).room_list().contains(r2);
        assert(t != i);
        let tp: int = if t < i {
            t
        } else {
            t - 1
        };
        assert(post.user_names()[tp] == x);
        assert(post.user_at(tp) == mid.user_at(t));
    }
    assert(post.wf());
    assert forall|x: Seq<char>| x != u && #[trigger] mid.has_user(x) implies post.has_user(x)
        && post.user_rooms(x) == mid.user_rooms(x) && post.user_mailbox(x) == mid.user_mailbox(
        x,
    ) && post.user_sent(x) == mid.user_sent(x) by {
        mid.lemma_user_index(x);
        let t = mid.user_index(x);
        assert(t != i);
        let tp: int = if t < i {
            t
        } else {
            t - 1
        };
        assert(post.user_names()[tp] == x);
        assert(post.has_user(x));
        post.lemma_user_index(x);
        assert(post.user_index(x) == tp);
        assert(post.user_at(tp) == mid.user_at(t));
    }
    assert forall|x: Seq<char>| #[trigger] post.has_user(x) implies mid.has_user(x) by {
        let t = choose|t: int| 0 <= t < post.user_names().len() && post.user_names()[t] == x;
        let t2: int = if t < i {
            t
        } else {
            t + 1
        };
        assert(mid.user_names()[t2] == x);
    }
    assert forall|rm: Seq<char>| #[trigger] mid.has_room(rm) implies post.members(rm)
        == mid.members(rm) by {
        mid.lemma_room_index(rm);
        let j2 = mid.room_index(rm);
        assert(post.room_names()[j2] == rm);
        assert(post.has_room(rm));
        post.lemma_room_index(rm);
        assert(post.room_index(rm) == j2);
        assert(post.room_at(j2) == mid.room_at(j2));
    }
}

impl ServerState {
    /// Removes a user entirely: their registry entry, and their membership
    /// in every room, deleting each room that empties.  Fails, changing
    /// nothing, exactly when the user is unknown.
    pub fn remove_user(&mut self, name: &str) -> (r: Result<(), ServerError>)
        requires
            old(self).wf(),
        ensures
            final(self).wf(),
            r is Ok <==> old(self).has_user(name@),
            r is Ok ==> spec_remove_user(*old(self), *final(self), name@),
            r is Err ==> *final(self) == *old(self),
            r matches Err(e) ==> is_user_unknown(e, name@),
    {
        let ghost pre = *self;
        let ghost u = name@;
        if !self.contains_user(name) {
            return Err(ServerError::UserUnknown(name.to_owned()));
        }
        proof {
            pre.lemma_user_index(u);
            assert forall|rm: Seq<char>|
                pre.has_room(rm) && pre.members(rm).contains(u) implies pre.user_rooms(
                u,
            ).contains(rm) by {
                pre.lemma_room_index(rm);
                assert(pre.room_names()[pre.room_index(rm)] == rm);
                assert(pre.room_at(pre.room_index(rm)).member_list().contains(u));
                assert(pre.in_members(rm, u));
                assert(pre.in_user_rooms(u, rm));
                let t = choose|t: int|
                    0 <= t < pre.user_names().len() && pre.user_names()[t] == u && (
                    #[trigger] pre.user_at(t)).room_list().contains(rm);
                assert(t == pre.user_index(u));
            }
        }
        loop
            invariant
                u == name@,
                pre.wf(),
                self.wf(),
                pre.has_user(u),
                self.has_user(u),
                self.user_names() == pre.user_names(),
                self.user_mailbox(u) == pre.user_mailbox(u),
                forall|x: Seq<char>|
                    x != u && #[trigger] pre.has_user(x) ==> self.user_rooms(x)
                        == pre.user_rooms(x) && self.user_mailbox(x) == pre.user_mailbox(x)
                        && self.user_sent(x) == pre.user_sent(x),
                forall|rm: Seq<char>| #[trigger] self.has_room(rm) ==> pre.has_room(rm),
                forall|rm: Seq<char>|
                    #[trigger] self.user_rooms(u).contains(rm) ==> pre.user_rooms(u).contains(
                        rm,
                    ),
                forall|rm: Seq<char>|
                    pre.has_room(rm) && !pre.members(rm).contains(u) ==> #[trigger] self.has_room(
                        rm,
                    ) && self.members(rm) == pre.members(rm),
                forall|rm: Seq<char>|
                    pre.has_room(rm) && pre.members(rm).contains(u) && self.user_rooms(
                        u,
                    ).contains(rm) ==> #[trigger] self.has_room(rm) && self.members(rm)
                        == pre.members(rm),
                forall|rm: Seq<char>|
                    pre.has_room(rm) && pre.members(rm).contains(u) && !self.user_rooms(
                        u,
                    ).contains(rm) ==> ((#[trigger] self.has_room(rm) <==> pre.members(
                        rm,
                    ).len() != 1) && (self.has_room(rm) ==> self.members(rm).len()
                        == pre.members(rm).len() - 1 && forall|x: Seq<char>|
                        #[trigger] self.members(rm).contains(x) <==> (pre.members(rm).contains(x)
                            && x != u))),
            ensures
                self.user_rooms(u).len() == 0,
            decreases self.user_rooms(u).len(),
        {
            let i = match self.find_user(name) {
                Some(i) => i,
                None => {
                    proof {
                        assert(false);
                    }
                    break ;
                },
            };
            proof {
                self.lemma_user_index(u);
                assert(self.user_index(u) == i as int);
            }
            if self.users[i].1.rooms.len() == 0 {
                proof {
                    assert(self.user_rooms(u) == self.user_at(i as int).room_list());
                }
                break ;
            }
            let rn = self.users[i].1.rooms[0].clone();
            proof {
                assert(self.user_rooms(u)[0] == rn@);
                assert(self.user_rooms(u).contains(rn@));
                assert(self.in_user_rooms(u, rn@)) by {
                    assert(self.user_names()[i as int] == u);
                }
                assert(self.in_members(rn@, u));
                let j2 = choose|j2: int|
                    0 <= j2 < self.room_names().len() && self.room_names()[j2] == rn@ && (
                    #[trigger] self.room_at(j2)).member_list().contains(u);
                assert(self.has_room(rn@));
                self.lemma_room_index(rn@);
                assert(self.room_index(rn@) == j2);
                assert(self.members(rn@).contains(u));
            }
            let ghost before = *self;
            let res = self.leave_room(rn.as_str(), name);
            proof {
                assert(res is Ok);
                assert(spec_leave_room(before, *self, rn@, u));
                assert(before.user_rooms(u).contains(rn@));
                assert(pre.user_rooms(u).contains(rn@));
                assert(pre.has_room(rn@)) by {
                    assert(before.has_room(rn@));
                }
                assert(pre.members(rn@).contains(u)) by {
                    assert(before.members(rn@) == pre.members(rn@));
                }
                // has_user transfer between states with equal name tables
                assert forall|x: Seq<char>| #[trigger] pre.has_user(x) implies before.has_user(
                    x,
                ) && self.has_user(x) by {}
                // rooms that still exist existed before
                assert forall|rm: Seq<char>| #[trigger] self.has_room(rm) implies pre.has_room(
                    rm,
                ) by {
                    if before.members(rn@).len() == 1 {
                        assert(self.room_names() == before.room_names().remove(
                            before.room_index(rn@),
                        ));
                        before.room_names().remove_ensures(before.room_index(rn@));
                        let k = choose|k: int|
                            0 <= k < self.room_names().len() && self.room_names()[k] == rm;
                        let j3 = before.room_index(rn@);
                        before.lemma_room_index(rn@);
                        let k2: int = if k < j3 {
                            k
                        } else {
                            k + 1
                        };
                        assert(before.room_names()[k2] == rm);
                        assert(before.has_room(rm));
                    } else {
                        assert(self.room_names() == before.room_names());
                        assert(before.has_room(rm));
                    }
                }
                // untouched rooms
                assert forall|rm: Seq<char>|
                    pre.has_room(rm) && !pre.members(rm).contains(u) implies #[trigger] self.has_room(
                    rm,
                ) && self.members(rm) == pre.members(rm) by {
                    assert(rm != rn@);
                    assert(before.has_room(rm) && before.members(rm) == pre.members(rm));
                }
                // rooms still on the user's list
                assert forall|rm: Seq<char>|
                    pre.has_room(rm) && pre.members(rm).contains(u) && self.user_rooms(
                        u,
                    ).contains(rm) implies #[trigger] self.has_room(rm) && self.members(rm)
                    == pre.members(rm) by {
                    assert(before.user_rooms(u).contains(rm) && rm != rn@);
                    assert(before.has_room(rm) && before.members(rm) == pre.members(rm));
                }
                // rooms already left
                assert forall|rm: Seq<char>|
                    pre.has_room(rm) && pre.members(rm).contains(u) && !self.user_rooms(
                        u,
                    ).contains(rm) implies ((#[trigger] self.has_room(rm) <==> pre.members(
                    rm,
                ).len() != 1) && (self.has_room(rm) ==> self.members(rm).len() == pre.members(
                    rm,
                ).len() - 1 && forall|x: Seq<char>|
                    #[trigger] self.members(rm).contains(x) <==> (pre.members(rm).contains(x)
                        && x != u))) by {
                    if rm == rn@ {
                        assert(before.members(rn@) == pre.members(rn@));
                    } else {
                        assert(!before.user_rooms(u).contains(rm));
                        if before.has_room(rm) {
                            assert(self.has_room(rm) && self.members(rm) == before.members(rm));
                        } else {
                            assert(!self.has_room(rm));
                            assert(pre.members(rm).len() == 1);
                        }
                    }
                }
                // user-side frame
                assert forall|x: Seq<char>| x != u && #[trigger] pre.has_user(x) implies
                    self.user_rooms(x) == pre.user_rooms(x) && self.user_mailbox(x)
                    == pre.user_mailbox(x) && self.user_sent(x) == pre.user_sent(x) by {
                    assert(before.user_rooms(x) == pre.user_rooms(x));
                    assert(before.user_mailbox(x) == pre.user_mailbox(x));
                    assert(before.user_sent(x) == pre.user_sent(x));
                }
            }
        }
        // the user is in no room now; drop the entry
        let i2 = match self.find_user(name) {
            Some(i) => i,
            None => {
                proof {
                    assert(false);
                }
                return Ok(());
            },
        };
        let ghost mid = *self;
        proof {
            mid.lemma_user_index(u);
            assert(mid.user_index(u) == i2 as int);
            assert(mid.user_at(i2 as int).room_list().len() == 0) by {
                assert(mid.user_rooms(u) == mid.user_at(i2 as int).room_list());
            }
        }
        self.users.remove(i2);
        proof {
            assert(self.user_names() =~= mid.user_names().remove(i2 as int));
            assert(self.users@ =~= mid.users@.remove(i2 as int));
            mid.users@.remove_ensures(i2 as int);
            mid.user_names().remove_ensures(i2 as int);
            assert forall|t: int| 0 <= t < i2 as int implies self.user_at(t) == mid.user_at(
                t,
            ) by {
                assert(self.users@[t] == mid.users@[t]);
            }
            assert forall|t: int| i2 as int <= t < self.user_names().len() implies self.user_at(
                t,
            ) == mid.user_at(t + 1) by {
                assert(self.users@[t] == mid.users@[t + 1]);
            }
            assert(self.room_names() =~= mid.room_names());
            assert(forall|j2: int|
                0 <= j2 < self.room_names().len() ==> self.room_at(j2) == mid.room_at(j2));
            lemma_remove_user_entry(mid, *self, u, i2 as int);
            // compose with the loop's frame back to `pre`
            assert(self.user_names() == pre.user_names().remove(pre.user_index(u))) by {
                assert(mid.user_names() == pre.user_names());
                assert(mid.user_index(u) == pre.user_index(u)) by {
                    pre.lemma_user_index(u);
                    mid.lemma_user_index(u);
                    assert(mid.user_names()[pre.user_index(u)] == u);
                }
            }
            assert forall|x: Seq<char>|
                x != u && #[trigger] pre.has_user(x) implies self.has_user(x)
                && self.user_rooms(x) == pre.user_rooms(x) && self.user_mailbox(x)
                == pre.user_mailbox(x) && self.user_sent(x) == pre.user_sent(x) by {
                assert(mid.has_user(x));
                assert(mid.user_rooms(x) == pre.user_rooms(x));
                assert(mid.user_mailbox(x) == pre.user_mailbox(x));
                assert(mid.user_sent(x) == pre.user_sent(x));
            }
            assert forall|x: Seq<char>| #[trigger] self.has_user(x) implies pre.has_user(x) by {
                assert(mid.has_user(x));
            }
            assert forall|rm: Seq<char>|
                #[trigger] self.has_room(rm) <==> (pre.has_room(rm) && exists|x: Seq<char>|
                    #[trigger] pre.members(rm).contains(x) && x != u) by {
                assert(self.has_room(rm) <==> mid.has_room(rm));
                if mid.has_room(rm) {
                    assert(pre.has_room(rm));
                    if pre.members(rm).contains(u) {
                        assert(!mid.user_rooms(u).contains(rm));
                        assert(mid.has_room(rm) <==> pre.members(rm).len() != 1);
                        assert(mid.members(rm).len() == pre.members(rm).len() - 1);
                        assert(mid.members(rm).len() > 0) by {
                            mid.lemma_room_index(rm);
                        }
                        let w = mid.members(rm)[0];
                        assert(mid.members(rm).contains(w));
                        assert(pre.members(rm).contains(w) && w != u);
                    } else {
                        assert(mid.members(rm) == pre.members(rm));
                        assert(pre.members(rm).len() > 0) by {
                            pre.lemma_room_index(rm);
                        }
                        let w = pre.members(rm)[0];
                        assert(pre.members(rm).contains(w));
                        assert(w != u);
                    }
                } else {
                    if pre.has_room(rm) {
                        if !pre.members(rm).contains(u) {
                            assert(mid.has_room(rm));
                        } else {
                            assert(!mid.user_rooms(u).contains(rm));
                            assert(pre.members(rm).len() == 1);
                            assert forall|x: Seq<char>|
                                !(#[trigger] pre.members(rm).contains(x) && x != u) by {
                                if pre.members(rm).contains(x) && x != u {
                                    let s1 = choose|s1: int|
                                        0 <= s1 < pre.members(rm).len() && pre.members(rm)[s1]
                                            == x;
                                    let s2 = choose|s2: int|
                                        0 <= s2 < pre.members(rm).len() && pre.members(rm)[s2]
                                            == u;
                                    assert(s1 == 0 && s2 == 0);
                                }
                            }
                        }
                    }
                }
            }
            assert forall|rm: Seq<char>| #[trigger] self.has_room(rm) implies forall|x: Seq<char>|
                #[trigger] self.members(rm).contains(x) <==> (pre.members(rm).contains(x) && x
                    != u) by {
                assert(mid.has_room(rm));
                assert(pre.has_room(rm));
                assert(self.members(rm) == mid.members(rm));
                if pre.members(rm).contains(u) {
                    assert(!mid.user_rooms(u).contains(rm));
                } else {
                    assert(mid.members(rm) == pre.members(rm));
                    assert forall|x: Seq<char>|
                        #[trigger] mid.members(rm).contains(x) <==> (pre.members(rm).contains(x)
                            && x != u) by {
                        if pre.members(rm).contains(x) && x == u {
                            assert(false);
                        }
                    }
                }
            }
        }
        Ok(())
    }
}

/// What a successful `say_to_user(from, to, text)` does: `to`'s send log
/// gains exactly one `SaidUser(from, text)`, no other user's log moves,
/// and the registry's structure — users, rooms, memberships, mailbox
/// handles — is untouched.
pub open spec fn spec_say_to_user(
    pre: ServerState,
    post: ServerState,
    from: Seq<char>,
    to: Seq<char>,
    text: Seq<char>,
) -> bool {
    &&& post.user_names() == pre.user_names()
    &&& post.room_names() == pre.room_names()
    &&& forall|x: Seq<char>|
        #[trigger] pre.has_user(x) ==> post.user_rooms(x) == pre.user_rooms(x)
            && post.user_mailbox(x) == pre.user_mailbox(x)
    &&& forall|rm: Seq<char>| #[trigger] pre.has_room(rm) ==> post.members(rm) == pre.members(rm)
    &&& post.user_sent(to) == pre.user_sent(to).push(OutgoingView::SaidUser(from, text))
    &&& forall|x: Seq<char>|
        x != to && #[trigger] pre.has_user(x) ==> post.user_sent(x) == pre.user_sent(x)
}

/// What a successful `say_to_room(from, room, text)` does: every member of
/// the room except the sender — the sender included as a member — gains
/// exactly one `SaidRoom(room, from, text)` on their send log, every other
/// user's log is unchanged, and the registry's structure is untouched.
pub open spec fn spec_say_to_room(
    pre: ServerState,
    post: ServerState,
    from: Seq<char>,
    room: Seq<char>,
    text: Seq<char>,
) -> bool {
    &&& post.user_names() == pre.user_names()
    &&& post.room_names() == pre.room_names()
    &&& forall|x: Seq<char>|
        #[trigger] pre.has_user(x) ==> post.user_rooms(x) == pre.user_rooms(x)
            && post.user_mailbox(x) == pre.user_mailbox(x)
    &&& forall|rm: Seq<char>| #[trigger] pre.has_room(rm) ==> post.members(rm) == pre.members(rm)
    &&& forall|x: Seq<char>|
        #[trigger] pre.has_user(x) ==> post.user_sent(x) == if pre.members(room).contains(x)
            && x != from {
            pre.user_sent(x).push(OutgoingView::SaidRoom(room, from, text))
        } else {
            pre.user_sent(x)
        }
}

/// A send touches one user's log and nothing else: the registry stays
/// well formed and every structural observation is unchanged.
proof fn lemma_send_frame(pre: ServerState, post: ServerState, i: int)
    requires
        pre.wf(),
        0 <= i < pre.user_names().len(),
        post.user_names() == pre.user_names(),
        post.room_names() == pre.room_names(),
        forall|t: int|
            0 <= t < pre.user_names().len() && t != i ==> post.user_at(t) == pre.user_at(t),
        post.user_at(i).room_list() == pre.user_at(i).room_list(),
        post.user_at(i).mailbox() == pre.user_at(i).mailbox(),
        post.user_at(i).wf(),
        forall|j: int| 0 <= j < pre.room_names().len() ==> post.room_at(j) == pre.room_at(j),
    ensures
        post.wf(),
        forall|x: Seq<char>|
            #[trigger] pre.has_user(x) ==> post.user_rooms(x) == pre.user_rooms(x)
                && post.user_mailbox(x) == pre.user_mailbox(x),
        forall|rm: Seq<char>|
            #[trigger] pre.has_room(rm) ==> post.members(rm) == pre.members(rm),
        forall|x: Seq<char>|
            x != pre.user_names()[i] && #[trigger] pre.has_user(x) ==> post.user_sent(x)
                == pre.user_sent(x),
{
    assert forall|t: int| 0 <= t < post.user_names().len() implies (#[trigger] post.user_at(
        t,
    )).wf() by {
        if t != i {
            assert(post.user_at(t) == pre.user_at(t));
        }
    }
    assert forall|j: int| 0 <= j < post.room_names().len() implies (#[trigger] post.room_at(
        j,
    )).wf() && post.room_at(j).member_list().len() > 0 by {
        assert(post.room_at(j) == pre.room_at(j));
    }
    assert forall|u: Seq<char>, r: Seq<char>| #[trigger] post.in_user_rooms(u, r) implies
        post.in_members(r, u) by {
        let t = choose|t: int|
            0 <= t < post.user_names().len() && post.user_names()[t] == u && (
            #[trigger] post.user_at(t)).room_list().contains(r);
        if t != i {
            assert(post.user_at(t) == pre.user_at(t));
        }
        assert(pre.user_at(t).room_list().contains(r));
        assert(pre.user_names()[t] == u);
        assert(pre.in_user_rooms(u, r));
        let j = choose|j: int|
            0 <= j < pre.room_names().len() && pre.room_names()[j] == r && (
            #[trigger] pre.room_at(j)).member_list().contains(u);
        assert(post.room_names()[j] == r);
        assert(post.room_at(j) == pre.room_at(j));
    }
    assert forall|u: Seq<char>, r: Seq<char>| #[trigger] post.in_members(r, u) implies
        post.in_user_rooms(u, r) by {
        let j = choose|j: int|
            0 <= j < post.room_names().len() && post.room_names()[j] == r && (
            #[trigger] post.room_at(j)).member_list().contains(u);
        assert(post.room_at(j) == pre.room_at(j));
        assert(pre.room_names()[j] == r);
        assert(pre.in_members(r, u));
        let t = choose|t: int|
            0 <= t < pre.user_names().len() && pre.user_names()[t] == u && (
            #[trigger] pre.user_at(t)).room_list().contains(r);
        assert(post.user_names()[t] == u);
        if t != i {
            assert(post.user_at(t) == pre.user_at(t));
            assert(post.user_at(t).room_list().contains(r));
        } else {
            assert(post.user_at(i).room_list().contains(r));
        }
    }
    assert(post.wf());
    assert forall|x: Seq<char>| #[trigger] pre.has_user(x) implies post.user_rooms(x)
        == pre.user_rooms(x) && post.user_mailbox(x) == pre.user_mailbox(x) by {
        pre.lemma_user_index(x);
        let t = pre.user_index(x);
        assert(post.user_names()[t] == x);
        assert(post.has_user(x));
        post.lemma_user_index(x);
        assert(post.user_index(x) == t);
        if t != i {
            assert(post.user_at(t) == pre.user_at(t));
        }
    }
    assert forall|rm: Seq<char>| #[trigger] pre.has_room(rm) implies post.members(rm)
        == pre.members(rm) by {
        pre.lemma_room_index(rm);
        let j = pre.room_index(rm);
        assert(post.room_names()[j] == rm);
        assert(post.has_room(rm));
        post.lemma_room_index(rm);
        assert(post.room_index(rm) == j);
        assert(post.room_at(j) == pre.room_at(j));
    }
    assert forall|x: Seq<char>|
        x != pre.user_names()[i] && #[trigger] pre.has_user(x) implies post.user_sent(x)
        == pre.user_sent(x) by {
        pre.lemma_user_index(x);
        let t = pre.user_index(x);
        assert(t != i);
        assert(post.user_names()[t] == x);
        assert(post.has_user(x));
        post.lemma_user_index(x);
        assert(post.user_index(x) == t);
        assert(post.user_at(t) == pre.user_at(t));
    }
}

impl ServerState {
    /// Enqueues `SaidUser(from, message)` on `to_user`'s mailbox: the
    /// addressee's send log gains exactly that entry and no other user's
    /// log moves.  Fails, changing nothing, exactly when the addressee is
    /// unknown.  Sending to oneself is allowed.  A mailbox whose
    /// connection is tearing down discards the enqueued message silently.
    pub fn say_to_user(&mut self, from_user: &str, to_user: &str, message: String) -> (r:
        Result<(), ServerError>)
        requires
            old(self).wf(),
        ensures
            final(self).wf(),
            r is Ok <==> old(self).has_user(to_user@),
            r is Ok ==> spec_say_to_user(
                *old(self),
                *final(self),
                from_user@,
                to_user@,
                message@,
            ),
            r is Err ==> *final(self) == *old(self),
            r matches Err(e) ==> is_user_unknown(e, to_user@),
    {
        let ghost pre = *self;
        let ghost text = message@;
        let i = match self.find_user(to_user) {
            Some(i) => i,
            None => {
                return Err(ServerError::UserUnknown(to_user.to_owned()));
            },
        };
        proof {
            pre.lemma_user_index(to_user@);
            assert(pre.user_index(to_user@) == i as int);
        }
        let msg = OutgoingMsg::SaidUser(from_user.to_owned(), message);
        let ghost entry = msg@;
        proof {
            assert(entry == OutgoingView::SaidUser(from_user@, text));
        }
        let _ = self.users[i].1.send(msg);
        proof {
            assert(self.users@ =~= pre.users@.update(i as int, self.users@[i as int]));
            assert(self.users@[i as int].0 == pre.users@[i as int].0);
            assert(self.user_names() =~= pre.user_names());
            assert(self.rooms == pre.rooms);
            assert(self.room_names() =~= pre.room_names());
            assert(forall|t: int|
                0 <= t < self.user_names().len() && t != i as int ==> self.user_at(t)
                    == pre.user_at(t));
            assert(forall|j: int|
                0 <= j < self.room_names().len() ==> self.room_at(j) == pre.room_at(j));
            assert(self.user_at(i as int).room_list() == pre.user_at(i as int).room_list());
            assert(self.user_at(i as int).mailbox() == pre.user_at(i as int).mailbox());
            assert(self.user_at(i as int).wf());
            assert(self.user_at(i as int).sent_log() == pre.user_at(i as int).sent_log().push(
                entry,
            ));
            lemma_send_frame(pre, *self, i as int);
            self.lemma_user_index(to_user@);
            assert(self.user_index(to_user@) == i as int);
            assert(self.user_sent(to_user@) == pre.user_sent(to_user@).push(entry));
        }
        Ok(())
    }

    /// The members of `room_name` that a message from `from_user` goes to:
    /// every member except the sender, each exactly once.
    pub fn room_recipients(&self, room_name: &str, from_user: &str) -> (r: Result<
        Vec<String>,
        ServerError,
    >)
        requires
            self.wf(),
        ensures
            r is Ok <==> self.has_room(room_name@),
            r matches Ok(v) ==> {
                &&& distinct_seq(v.deep_view())
                &&& forall|x: Seq<char>|
                    #[trigger] v.deep_view().contains(x) <==> (self.members(room_name@).contains(
                        x,
                    ) && x != from_user@)
            },
            r matches Err(e) ==> is_room_unknown(e, room_name@),
    {
        let j = match self.find_room(room_name) {
            Some(j) => j,
            None => {
                return Err(ServerError::RoomUnknown(room_name.to_owned()));
            },
        };
        proof {
            self.lemma_room_index(room_name@);
            assert(self.room_index(room_name@) == j as int);
            assert(self.room_at(j as int).wf());
        }
        let room = &self.rooms[j].1;
        let ghost mem = room.member_list();
        let mut out: Vec<String> = Vec::new();
        let mut k: usize = 0;
        while k < room.users.len()
            invariant
                0 <= k <= room.users.len(),
                mem == room.member_list(),
                distinct_seq(mem),
                distinct_seq(out.deep_view()),
                forall|x: Seq<char>|
                    #[trigger] out.deep_view().contains(x) <==> (mem.subrange(0, k as int).contains(
                        x,
                    ) && x != from_user@),
            decreases room.users.len() - k,
        {
            let ghost preout = out.deep_view();
            if !str_eq(room.users[k].as_str(), from_user) {
                out.push(room.users[k].clone());
                proof {
                    assert(out.deep_view() =~= preout.push(mem[k as int]));
                    assert(!preout.contains(mem[k as int])) by {
                        if preout.contains(mem[k as int]) {
                            let t = choose|t: int|
                                0 <= t < k as int && #[trigger] mem.subrange(0, k as int)[t]
                                    == mem[k as int];
                            assert(mem[t] == mem[k as int]);
                        }
                    }
                    assert(distinct_seq(out.deep_view())) by {
                        assert forall|a: int, b: int|
                            0 <= a < b < out.deep_view().len() implies out.deep_view()[a]
                            != out.deep_view()[b] by {
                            if b == preout.len() as int {
                                assert(preout.contains(preout[a]));
                            }
                        }
                    }
                }
            }
            proof {
                assert(mem.subrange(0, k as int + 1) =~= mem.subrange(0, k as int).push(
                    mem[k as int],
                ));
                assert forall|x: Seq<char>|
                    #[trigger] out.deep_view().contains(x) <==> (mem.subrange(
                        0,
                        k as int + 1,
                    ).contains(x) && x != from_user@) by {
                    if out.deep_view().contains(x) {
                        if !preout.contains(x) {
                            assert(x == mem[k as int]);
                        }
                        assert(mem.subrange(0, k as int + 1).contains(x)) by {
                            if mem.subrange(0, k as int).contains(x) {
                                let t = choose|t: int|
                                    0 <= t < k as int && #[trigger] mem.subrange(0, k as int)[t]
                                        == x;
                                assert(mem.subrange(0, k as int + 1)[t] == x);
                            } else {
                                assert(mem.subrange(0, k as int + 1)[k as int] == x);
                            }
                        }
                    }
                    if mem.subrange(0, k as int + 1).contains(x) && x != from_user@ {
                        let t = choose|t: int|
                            0 <= t < k as int + 1 && #[trigger] mem.subrange(0, k as int + 1)[t]
                                == x;
                        if t < k as int {
                            assert(mem.subrange(0, k as int)[t] == x);
                            assert(preout.contains(x));
                            let s1 = choose|s1: int|
                                0 <= s1 < preout.len() && #[trigger] preout[s1] == x;
                            assert(out.deep_view()[s1] == x);
                        } else {
                            assert(x == mem[k as int]);
                            assert(out.deep_view()[out.deep_view().len() - 1] == x);
                        }
                    }
                }
            }
            k += 1;
        }
        proof {
            assert(mem.subrange(0, mem.len() as int) =~= mem);
            assert(self.members(room_name@) == mem);
        }
        Ok(out)
    }

    /// Enqueues `SaidRoom(room, from, message)` on the mailbox of every
    /// member of `room_name` except the sender: each of their send logs
    /// gains exactly that entry, the sender's and everyone else's stay as
    /// they were, and the registry's structure never changes.  Fails,
    /// changing nothing, exactly when the room is unknown.
    pub fn say_to_room(&mut self, user_name: &str, room_name: &str, message: String) -> (r:
        Result<(), ServerError>)
        requires
            old(self).wf(),
        ensures
            final(self).wf(),
            r is Ok <==> old(self).has_room(room_name@),
            r is Ok ==> spec_say_to_room(
                *old(self),
                *final(self),
                user_name@,
                room_name@,
                message@,
            ),
            r is Err ==> *final(self) == *old(self),
            r matches Err(e) ==> is_room_unknown(e, room_name@),
    {
        let ghost pre = *self;
        let ghost rm = room_name@;
        let ghost from = user_name@;
        let ghost text = message@;
        let recipients = match self.room_recipients(room_name, user_name) {
            Ok(v) => v,
            Err(e) => {
                return Err(e);
            },
        };
        let ghost rv = recipients.deep_view();
        let ghost entry = OutgoingView::SaidRoom(rm, from, text);
        proof {
            assert(rv.subrange(0, 0) =~= Seq::<Seq<char>>::empty());
        }
        let mut k: usize = 0;
        while k < recipients.len()
            invariant
                pre.wf(),
                self.wf(),
                rm == room_name@,
                from == user_name@,
                text == message@,
                entry == OutgoingView::SaidRoom(rm, from, text),
                pre.has_room(rm),
                rv == recipients.deep_view(),
                distinct_seq(rv),
                forall|x: Seq<char>|
                    #[trigger] rv.contains(x) <==> (pre.members(rm).contains(x) && x != from),
                0 <= k <= rv.len(),
                self.user_names() == pre.user_names(),
                self.room_names() == pre.room_names(),
                forall|x: Seq<char>|
                    #[trigger] pre.has_user(x) ==> self.user_rooms(x) == pre.user_rooms(x)
                        && self.user_mailbox(x) == pre.user_mailbox(x),
                forall|r2: Seq<char>|
                    #[trigger] pre.has_room(r2) ==> self.members(r2) == pre.members(r2),
                forall|x: Seq<char>|
                    #[trigger] pre.has_user(x) && rv.subrange(0, k as int).contains(x)
                        ==> self.user_sent(x) == pre.user_sent(x).push(entry),
                forall|x: Seq<char>|
                    #[trigger] pre.has_user(x) && !rv.subrange(0, k as int).contains(x)
                        ==> self.user_sent(x) == pre.user_sent(x),
            decreases rv.len() - k,
        {
            let ghost target = rv[k as int];
            proof {
                assert(rv.contains(target));
                assert(pre.members(rm).contains(target) && target != from);
                // a recipient is a member, and members are registered users
                pre.lemma_room_index(rm);
                assert(pre.room_names()[pre.room_index(rm)] == rm);
                assert(pre.room_at(pre.room_index(rm)).member_list().contains(target));
                assert(pre.in_members(rm, target));
                assert(pre.in_user_rooms(target, rm));
                assert(pre.has_user(target)) by {
                    let t = choose|t: int|
                        0 <= t < pre.user_names().len() && pre.user_names()[t] == target && (
                        #[trigger] pre.user_at(t)).room_list().contains(rm);
                }
                assert(self.has_user(target));
            }
            let i = match self.find_user(recipients[k].as_str()) {
                Some(i) => i,
                None => {
                    proof {
                        assert(false);
                    }
                    return Ok(());
                },
            };
            let ghost before = *self;
            proof {
                before.lemma_user_index(target);
                assert(before.user_index(target) == i as int);
                // this recipient has not been served yet: the list is distinct
                assert(!rv.subrange(0, k as int).contains(target)) by {
                    if rv.subrange(0, k as int).contains(target) {
                        let t = choose|t: int|
                            0 <= t < k as int && #[trigger] rv.subrange(0, k as int)[t]
                                == target;
                        assert(rv[t] == target && rv[k as int] == target && t != k as int);
                    }
                }
                assert(before.user_sent(target) == pre.user_sent(target));
                assert(before.user_at(i as int).sent_log() == before.user_sent(target));
            }
            let msg = OutgoingMsg::SaidRoom(
                room_name.to_owned(),
                user_name.to_owned(),
                message.clone(),
            );
            let ghost mv = msg@;
            proof {
                assert(mv == entry);
            }
            let _ = self.users[i].1.send(msg);
            proof {
                assert(self.users@ =~= before.users@.update(i as int, self.users@[i as int]));
                assert(self.users@[i as int].0 == before.users@[i as int].0);
                assert(self.user_names() =~= before.user_names());
                assert(self.rooms == before.rooms);
                assert(self.room_names() =~= before.room_names());
                assert(forall|t: int|
                    0 <= t < self.user_names().len() && t != i as int ==> self.user_at(t)
                        == before.user_at(t));
                assert(forall|j: int|
                    0 <= j < self.room_names().len() ==> self.room_at(j) == before.room_at(j));
                assert(self.user_at(i as int).room_list() == before.user_at(
                    i as int,
                ).room_list());
                assert(self.user_at(i as int).mailbox() == before.user_at(i as int).mailbox());
                assert(self.user_at(i as int).wf());
                assert(self.user_at(i as int).sent_log() == before.user_at(
                    i as int,
                ).sent_log().push(entry));
                lemma_send_frame(before, *self, i as int);
                self.lemma_user_index(target);
                assert(self.user_index(target) == i as int);
                assert(self.user_sent(target) == pre.user_sent(target).push(entry));
                assert(rv.subrange(0, k as int + 1) =~= rv.subrange(0, k as int).push(target));
                assert forall|x: Seq<char>| #[trigger] pre.has_user(x) implies self.user_rooms(
                    x,
                ) == pre.user_rooms(x) && self.user_mailbox(x) == pre.user_mailbox(x) by {
                    assert(before.has_user(x));
                    assert(before.user_names()[i as int] == target);
                }
                assert forall|x: Seq<char>|
                    pre.has_user(x) && rv.subrange(0, k as int + 1).contains(x) implies
                    self.user_sent(x) == pre.user_sent(x).push(entry) by {
                    if x != target {
                        let t = choose|t: int|
                            0 <= t < k as int + 1 && #[trigger] rv.subrange(0, k as int + 1)[t]
                                == x;
                        assert(t < k as int);
                        assert(rv.subrange(0, k as int)[t] == x);
                        assert(rv.subrange(0, k as int).contains(x));
                        assert(before.user_sent(x) == pre.user_sent(x).push(entry));
                        assert(before.has_user(x));
                        assert(before.user_names()[i as int] == target);
                        assert(self.user_sent(x) == before.user_sent(x));
                    }
                }
                assert forall|x: Seq<char>|
                    pre.has_user(x) && !rv.subrange(0, k as int + 1).contains(x) implies
                    self.user_sent(x) == pre.user_sent(x) by {
                    assert(x != target) by {
                        if x == target {
                            assert(rv.subrange(0, k as int + 1)[k as int] == target);
                        }
                    }
                    assert(!rv.subrange(0, k as int).contains(x)) by {
                        if rv.subrange(0, k as int).contains(x) {
                            let t = choose|t: int|
                                0 <= t < k as int && #[trigger] rv.subrange(0, k as int)[t]
                                    == x;
                            assert(rv.subrange(0, k as int + 1)[t] == x);
                        }
                    }
                    assert(before.user_sent(x) == pre.user_sent(x));
                    assert(before.has_user(x));
                    assert(before.user_names()[i as int] == target);
                    assert(self.user_sent(x) == before.user_sent(x));
                }
            }
            k += 1;
        }
        proof {
            assert(rv.subrange(0, rv.len() as int) =~= rv);
            assert forall|x: Seq<char>| #[trigger] pre.has_user(x) implies self.user_sent(x)
                == (if pre.members(rm).contains(x) && x != from {
                pre.user_sent(x).push(entry)
            } else {
                pre.user_sent(x)
            }) by {
                if pre.members(rm).contains(x) && x != from {
                    assert(rv.contains(x));
                } else {
                    assert(!rv.contains(x));
                }
            }
        }
        Ok(())
    }
}

/// Law: self-suppression.  A successful room fan-out delivers to the other
/// members but never touches the sender's own mailbox log.
pub proof fn lemma_self_suppression(
    pre: &ServerState,
    post: &ServerState,
    room: Seq<char>,
    from: Seq<char>,
    text: Seq<char>,
)
    requires
        pre.has_user(from),
        spec_say_to_room(*pre, *post, from, room, text),
    ensures
        post.user_sent(from) == pre.user_sent(from),
{
}

/// Law: membership is bidirectional.  In a well-formed registry a user's
/// own room list names a room exactly when that room's member set names
/// the user.
pub proof fn lemma_bidirectional_membership(s: &ServerState, u: Seq<char>, r: Seq<char>)
    requires
        s.wf(),
    ensures
        s.in_user_rooms(u, r) <==> s.in_members(r, u),
{
}

/// Law: no room is ever empty.  In a well-formed registry every existing
/// room has at least one member.
pub proof fn lemma_no_empty_rooms(s: &ServerState, r: Seq<char>)
    requires
        s.wf(),
        s.has_room(r),
    ensures
        s.members(r).len() > 0,
{
    s.lemma_room_index(r);
}

/// Law: name shape closure.  In a well-formed registry every user name and
/// every room name matches its required shape.
pub proof fn lemma_name_shape_closure(s: &ServerState, u: Seq<char>, r: Seq<char>)
    requires
        s.wf(),
    ensures
        s.has_user(u) ==> valid_user_name(u),
        s.has_room(r) ==> valid_room_name(r),
{
    if s.has_user(u) {
        s.lemma_user_index(u);
    }
    if s.has_room(r) {
        s.lemma_room_index(r);
    }
}

impl Default for ServerState {
    /// The same empty registry as [`ServerState::new`].
    fn default() -> (r: ServerState)
        ensures
            r.wf(),
            r.user_names() == Seq::<Seq<char>>::empty(),
            r.room_names() == Seq::<Seq<char>>::empty(),
    {
        ServerState::new()
    }
}

} // verus!
