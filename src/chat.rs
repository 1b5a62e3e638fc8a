//! The chat room: a directory of members, each with a mailbox of room
//! events; the state machine of one connection; and what a member's writer
//! shows for each event it takes from its mailbox.
use crate::text::{chars_of, decode_lossy, starts_with, string_of, utf8_lossy};
use crossbeam::channel::{Receiver, Sender};
use vstd::prelude::*;

verus! {

#[verifier::external_type_specification]
#[verifier::external_body]
#[verifier::reject_recursive_types(T)]
pub struct ExSender<T>(crossbeam::channel::Sender<T>);

#[verifier::external_type_specification]
#[verifier::external_body]
#[verifier::reject_recursive_types(T)]
pub struct ExReceiver<T>(crossbeam::channel::Receiver<T>);

/// Relies on `crossbeam::channel::Sender`: the events sent through `s`, in
/// the order they were queued.
pub uninterp spec fn sent_log(s: Sender<RoomEvent>) -> Seq<EventView>;

/// Relies on `crossbeam::channel::Sender`: the channel that `s` sends into.
pub uninterp spec fn sender_channel(s: Sender<RoomEvent>) -> nat;

/// Relies on `crossbeam::channel::Receiver`: the channel that `r` takes from.
pub uninterp spec fn receiver_channel(r: Receiver<RoomEvent>) -> nat;

/// Relies on `crossbeam::channel::unbounded`: the two ends of one new
/// channel, through which nothing has been sent.
#[verifier::external_body]
fn new_mailbox() -> (r: (Sender<RoomEvent>, Receiver<RoomEvent>))
    ensures
        sent_log(r.0) == Seq::<EventView>::empty(),
        sender_channel(r.0) == receiver_channel(r.1),
{
    crossbeam::channel::unbounded()
}

/// Relies on `Sender::send` on an unbounded channel: `e` is queued after
/// every event sent before it. The send cannot fail, since `r`, a receiver
/// of the same channel, is alive.
#[verifier::external_body]
fn post(s: &mut Sender<RoomEvent>, r: &Receiver<RoomEvent>, e: RoomEvent)
    requires
        sender_channel(*old(s)) == receiver_channel(*r),
    ensures
        sent_log(*final(s)) == sent_log(*old(s)).push(e@),
        sender_channel(*final(s)) == sender_channel(*old(s)),
{
    let _ = r;
    let _ = s.send(e);
}

/// Relies on `Receiver::clone`: another handle on the same channel.
#[verifier::external_body]
fn another_handle(r: &Receiver<RoomEvent>) -> (c: Receiver<RoomEvent>)
    ensures
        receiver_channel(c) == receiver_channel(*r),
{
    r.clone()
}

/// Relies on `char::is_alphanumeric`: whether `c` is alphabetic or numeric in Unicode.
pub uninterp spec fn alphanumeric(c: char) -> bool;

/// Relies on `char::is_alphanumeric`; the result depends on `c` alone.
#[verifier::external_body]
fn is_alphanumeric(c: char) -> (r: bool)
    ensures
        r == alphanumeric(c),
{
    c.is_alphanumeric()
}

/// An event of the room, as it travels through the members' mailboxes.
#[derive(Debug, PartialEq, Eq)]
pub enum RoomEvent {
    Join(u64),
    Leave(u64, String),
    Message(u64, String),
    Shutdown,
}

/// The mathematical value of a [`RoomEvent`].
pub enum EventView {
    Join(u64),
    Leave(u64, Seq<char>),
    Message(u64, Seq<char>),
    Shutdown,
}

impl View for RoomEvent {
    type V = EventView;

    open spec fn view(&self) -> EventView {
        match self {
            RoomEvent::Join(id) => EventView::Join(*id),
            RoomEvent::Leave(id, name) => EventView::Leave(*id, name@),
            RoomEvent::Message(id, text) => EventView::Message(*id, text@),
            RoomEvent::Shutdown => EventView::Shutdown,
        }
    }
}

impl RoomEvent {
    /// A copy of this event, for another mailbox.
    pub fn duplicate(&self) -> (r: RoomEvent)
        ensures
            r@ == self@,
    {
        match self {
            RoomEvent::Join(id) => RoomEvent::Join(*id),
            RoomEvent::Leave(id, name) => RoomEvent::Leave(*id, name.clone()),
            RoomEvent::Message(id, text) => RoomEvent::Message(*id, text.clone()),
            RoomEvent::Shutdown => RoomEvent::Shutdown,
        }
    }
}

/// A member as the room sees it: its id, its display name, and every event
/// posted to its mailbox so far, oldest first.
pub struct MemberView {
    pub id: u64,
    pub name: Seq<char>,
    pub posted: Seq<EventView>,
}

/// The room: the next id to hand out, and the members in the order they joined.
pub struct ChatView {
    pub next_id: nat,
    pub members: Seq<MemberView>,
}

/// A display name may be used when it is non-empty and all alphanumeric.
pub open spec fn valid_name(name: Seq<char>) -> bool {
    name.len() > 0 && forall|i: int| 0 <= i < name.len() ==> alphanumeric(#[trigger] name[i])
}

/// Whether some member of `ms` has the id `id`.
pub open spec fn has_id(ms: Seq<MemberView>, id: u64) -> bool {
    exists|i: int| 0 <= i < ms.len() && ms[i].id == id
}

/// The index of the member with the id `id`, where there is one.
pub open spec fn index_of(ms: Seq<MemberView>, id: u64) -> int {
    choose|i: int| 0 <= i < ms.len() && ms[i].id == id
}

/// Ids are handed out in increasing order, above zero, and never twice.
pub open spec fn chat_wf(c: ChatView) -> bool {
    &&& c.next_id >= 1
    &&& forall|i: int| 0 <= i < c.members.len() ==> 0 < #[trigger] c.members[i].id < c.next_id
    &&& forall|i: int, j: int|
        0 <= i < j < c.members.len() ==> #[trigger] c.members[i].id < #[trigger] c.members[j].id
}

/// `e` posted to the mailbox of every member of `ms`.
pub open spec fn post_all(ms: Seq<MemberView>, e: EventView) -> Seq<MemberView> {
    ms.map_values(|m: MemberView| MemberView { id: m.id, name: m.name, posted: m.posted.push(e) })
}

/// The room after `e` is posted to every member.
pub open spec fn broadcast_effect(c: ChatView, e: EventView) -> ChatView {
    ChatView { next_id: c.next_id, members: post_all(c.members, e) }
}

/// The room after `e` is posted to the member `id` alone.
pub open spec fn direct_effect(c: ChatView, id: u64, e: EventView) -> ChatView {
    if has_id(c.members, id) {
        let i = index_of(c.members, id);
        let m = c.members[i];
        ChatView {
            next_id: c.next_id,
            members: c.members.update(i, MemberView { id: m.id, name: m.name, posted: m.posted.push(e) }),
        }
    } else {
        c
    }
}

/// The room after a user named `name` joins: it takes the next id, and the
/// join is posted to every member, itself included.
pub open spec fn join_effect(c: ChatView, name: Seq<char>) -> ChatView {
    let id = c.next_id as u64;
    ChatView {
        next_id: c.next_id + 1,
        members: post_all(c.members, EventView::Join(id)).push(
            MemberView { id, name, posted: seq![EventView::Join(id)] },
        ),
    }
}

/// The room after the member `id` leaves: its leave is posted to every
/// member, itself included, and then it is removed.
pub open spec fn leave_effect(c: ChatView, id: u64) -> ChatView {
    if has_id(c.members, id) {
        let i = index_of(c.members, id);
        let e = EventView::Leave(id, c.members[i].name);
        ChatView { next_id: c.next_id, members: post_all(c.members, e).remove(i) }
    } else {
        c
    }
}

/// The names of `s`, each but the first after a comma and a space.
pub open spec fn join_names(s: Seq<Seq<char>>) -> Seq<char>
    decreases s.len(),
{
    if s.len() == 0 {
        seq![]
    } else if s.len() == 1 {
        s[0]
    } else {
        join_names(s.drop_last()) + seq![',', ' '] + s.last()
    }
}

/// The display names of the members, in the order they joined.
pub open spec fn names(ms: Seq<MemberView>) -> Seq<Seq<char>> {
    ms.map_values(|m: MemberView| m.name)
}

/// The roster of the room: its names joined by `", "`.
pub open spec fn roster(ms: Seq<MemberView>) -> Seq<char> {
    join_names(names(ms))
}

/// A member of the room: its id, display name and mailbox.
pub struct User {
    pub(crate) id: u64,
    pub(crate) name: String,
    pub(crate) sender: Sender<RoomEvent>,
    pub(crate) receiver: Receiver<RoomEvent>,
}

impl User {
    /// A user named `name` with a new, empty mailbox.
    pub(crate) fn new(id: u64, name: &str) -> (r: User)
        ensures
            r.id == id,
            r.name@ == name@,
            sent_log(r.sender) == Seq::<EventView>::empty(),
            sender_channel(r.sender) == receiver_channel(r.receiver),
    {
        let (sender, receiver) = new_mailbox();
        User { id, name: String::from_str(name), sender, receiver }
    }

    /// Whether `name` may be used as a display name.
    pub fn is_valid_name(name: &str) -> (r: bool)
        ensures
            r == valid_name(name@),
    {
        let chars = chars_of(name);
        if chars.len() == 0 {
            return false;
        }
        let mut i: usize = 0;
        while i < chars.len()
            invariant
                chars@ == name@,
                i <= chars@.len(),
                forall|j: int| 0 <= j < i ==> alphanumeric(#[trigger] chars@[j]),
            decreases chars@.len() - i,
        {
            if !is_alphanumeric(chars[i]) {
                return false;
            }
            i = i + 1;
        }
        true
    }
}

/// The room's directory: the next id to hand out and the members in the
/// order they joined. Every mutation happens through `&mut self`, so a
/// server shares it behind one lock.
pub struct BudgetChat {
    next_id: u64,
    users: Vec<User>,
}

impl View for BudgetChat {
    type V = ChatView;

    closed spec fn view(&self) -> ChatView {
        ChatView {
            next_id: self.next_id as nat,
            members: Seq::new(
                self.users@.len(),
                |i: int|
                    MemberView {
                        id: self.users@[i].id,
                        name: self.users@[i].name@,
                        posted: sent_log(self.users@[i].sender),
                    },
            ),
        }
    }
}

impl BudgetChat {
    /// The directory is well formed: each member's two ends belong to one
    /// channel, and ids are as [`chat_wf`] says.
    pub closed spec fn wf(&self) -> bool {
        &&& forall|i: int|
            0 <= i < self.users@.len() ==> sender_channel(#[trigger] self.users@[i].sender)
                == receiver_channel(self.users@[i].receiver)
        &&& chat_wf(self@)
    }

    /// A well-formed directory has a well-formed view.
    pub proof fn room_is_wf(&self)
        requires
            self.wf(),
        ensures
            chat_wf(self@),
    {
    }

    /// The sending end of the mailbox of the member `id`.
    pub closed spec fn sender_of(&self, id: u64) -> Sender<RoomEvent> {
        self.users@[index_of(self@.members, id)].sender
    }

    /// An empty room whose first member will get the id 1.
    pub fn new() -> (r: BudgetChat)
        ensures
            r.wf(),
            r@.next_id == 1,
            r@.members.len() == 0,
    {
        let r = BudgetChat { next_id: 1, users: Vec::new() };
        assert(r@.members =~= Seq::<MemberView>::empty());
        r
    }

    /// Whether another member can still get an id.
    pub fn has_free_id(&self) -> (r: bool)
        ensures
            r == (self@.next_id < u64::MAX),
    {
        self.next_id < u64::MAX
    }

    /// Hands out the next id.
    fn next_id(&mut self) -> (r: u64)
        requires
            old(self)@.next_id < u64::MAX,
        ensures
            r == old(self)@.next_id,
            final(self).users == old(self).users,
            final(self).next_id == old(self).next_id + 1,
    {
        let id = self.next_id;
        self.next_id = self.next_id + 1;
        id
    }

    /// The index of the member `id`, if it is in the room.
    fn position(&self, id: u64) -> (r: Option<usize>)
        requires
            self.wf(),
        ensures
            r.is_some() == has_id(self@.members, id),
            r.is_some() ==> r.unwrap() < self@.members.len() && r.unwrap() == index_of(
                self@.members,
                id,
            ),
    {
        let mut i: usize = 0;
        while i < self.users.len()
            invariant
                self.wf(),
                i <= self.users@.len(),
                forall|j: int| 0 <= j < i ==> #[trigger] self@.members[j].id != id,
            decreases self.users@.len() - i,
        {
            if self.users[i].id == id {
                assert(self@.members[i as int].id == id);
                let ghost k = index_of(self@.members, id);
                assert(k == i) by {
                    if k < i {
                        assert(self@.members[k].id < self@.members[i as int].id);
                    } else if k > i {
                        assert(self@.members[i as int].id < self@.members[k].id);
                    }
                }
                return Some(i);
            }
            i = i + 1;
        }
        assert(!has_id(self@.members, id)) by {
            if has_id(self@.members, id) {
                let k = choose|k: int| 0 <= k < self@.members.len() && self@.members[k].id == id;
                assert(self@.members[k].id != id);
            }
        }
        None
    }

    /// The display name of the member `id`, if it is in the room.
    pub fn name(&self, user_id: u64) -> (r: Option<String>)
        requires
            self.wf(),
        ensures
            r.is_some() == has_id(self@.members, user_id),
            r.is_some() ==> r.unwrap()@ == self@.members[index_of(self@.members, user_id)].name,
    {
        match self.position(user_id) {
            Some(i) => Some(self.users[i].name.clone()),
            None => None,
        }
    }

    /// Another handle on the mailbox of the member `id`, for its writer: it
    /// takes from the channel into which exactly that member's posted
    /// events were sent.
    pub fn mailbox(&self, user_id: u64) -> (r: Option<Receiver<RoomEvent>>)
        requires
            self.wf(),
        ensures
            r.is_some() == has_id(self@.members, user_id),
            r.is_some() ==> receiver_channel(r->Some_0) == sender_channel(self.sender_of(user_id))
                && sent_log(self.sender_of(user_id)) == self@.members[index_of(
                self@.members,
                user_id,
            )].posted,
    {
        match self.position(user_id) {
            Some(i) => Some(another_handle(&self.users[i].receiver)),
            None => None,
        }
    }

    /// The roster: the names of the members in the order they joined,
    /// separated by `", "`.
    pub fn room_list(&self) -> (r: String)
        requires
            self.wf(),
        ensures
            r@ == roster(self@.members),
    {
        let ghost ns = names(self@.members);
        let mut r = String::new();
        let mut i: usize = 0;
        proof {
            reveal_strlit(", ");
            assert(ns.take(0) =~= Seq::<Seq<char>>::empty());
        }
        while i < self.users.len()
            invariant
                ns == names(self@.members),
                ns.len() == self.users@.len(),
                i <= self.users@.len(),
                r@ == join_names(ns.take(i as int)),
                ", "@ == seq![',', ' '],
            decreases self.users@.len() - i,
        {
            assert(ns.take(i + 1).drop_last() =~= ns.take(i as int));
            assert(ns[i as int] == self.users@[i as int].name@);
            if i > 0 {
                r.append(", ");
            }
            r.append(self.users[i].name.as_str());
            i = i + 1;
        }
        assert(ns.take(i as int) =~= ns);
        r
    }

    /// Posts `event` to the mailbox of every member.
    pub fn broadcast(&mut self, event: &RoomEvent)
        requires
            old(self).wf(),
        ensures
            final(self).wf(),
            final(self)@ == broadcast_effect(old(self)@, event@),
    {
        let ghost start = self@;
        let mut i: usize = 0;
        while i < self.users.len()
            invariant
                self.wf(),
                self.next_id == start.next_id,
                i <= self.users@.len(),
                self@.members.len() == start.members.len(),
                forall|j: int|
                    0 <= j < start.members.len() ==> (#[trigger] self@.members[j]).id
                        == start.members[j].id && self@.members[j].name == start.members[j].name,
                forall|j: int|
                    0 <= j < i ==> (#[trigger] self@.members[j]).posted
                        == start.members[j].posted.push(event@),
                forall|j: int|
                    i <= j < start.members.len() ==> (#[trigger] self@.members[j]).posted
                        == start.members[j].posted,
            decreases self.users@.len() - i,
        {
            assert(self@.members[i as int].posted == start.members[i as int].posted);
            let ghost before = self@;
            let ghost users_before = self.users@;
            let user = &mut self.users[i];
            post(&mut user.sender, &user.receiver, event.duplicate());
            assert(self.users@ == users_before.update(i as int, self.users@[i as int]));
            assert(forall|j: int|
                0 <= j < self@.members.len() && j != i ==> self@.members[j] == before.members[j]);
            assert(forall|j: int|
                0 <= j < self@.members.len() ==> (#[trigger] self@.members[j]).id
                    == before.members[j].id && self@.members[j].name == before.members[j].name);
            assert(self@.members[i as int].posted == start.members[i as int].posted.push(event@));
            i = i + 1;
        }
        assert(self@.members =~= post_all(start.members, event@));
    }

    /// Posts `event` to the mailbox of the member `id` alone, if it is in the room.
    pub fn send_message(&mut self, user_id: u64, event: RoomEvent)
        requires
            old(self).wf(),
        ensures
            final(self).wf(),
            final(self)@ == direct_effect(old(self)@, user_id, event@),
    {
        let ghost start = self@;
        match self.position(user_id) {
            Some(i) => {
                let ghost e = event@;
                let ghost users_before = self.users@;
                let user = &mut self.users[i];
                post(&mut user.sender, &user.receiver, event);
                assert(self.users@ == users_before.update(i as int, self.users@[i as int]));
                let ghost m = start.members[i as int];
                assert(self@.members =~= start.members.update(
                    i as int,
                    MemberView { id: m.id, name: m.name, posted: m.posted.push(e) },
                ));
            },
            None => {},
        }
    }

    /// Adds a member named `name` under the next id, then posts its join to
    /// every member, the new one included. Returns the new id.
    pub fn add_user(&mut self, name: &str) -> (r: u64)
        requires
            old(self).wf(),
            old(self)@.next_id < u64::MAX,
        ensures
            final(self).wf(),
            r == old(self)@.next_id,
            final(self)@ == join_effect(old(self)@, name@),
    {
        let ghost start = self@;
        let user_id = self.next_id();
        let user = User::new(user_id, name);
        self.users.push(user);
        let ghost mid = self@;
        assert(mid.members =~= start.members.push(
            MemberView { id: user_id, name: name@, posted: seq![] },
        ));
        self.broadcast(&RoomEvent::Join(user_id));
        assert(self@.members =~= post_all(start.members, EventView::Join(user_id)).push(
            MemberView { id: user_id, name: name@, posted: seq![EventView::Join(user_id)] },
        ));
        user_id
    }

    /// Posts the leave of the member `id` to every member, itself included,
    /// then removes it. Nothing happens when `id` is not in the room.
    pub fn remove_user(&mut self, user_id: u64)
        requires
            old(self).wf(),
        ensures
            final(self).wf(),
            final(self)@ == leave_effect(old(self)@, user_id),
    {
        let ghost start = self@;
        match self.name(user_id) {
            Some(name) => {
                let ghost k = index_of(start.members, user_id);
                self.broadcast(&RoomEvent::Leave(user_id, name));
                assert(self@.members[k].id == user_id);
                let i = self.position(user_id).unwrap();
                let ghost mid = self@;
                let _user = self.users.remove(i);
                assert(self@.members =~= mid.members.remove(i as int));
            },
            None => {},
        }
    }

    /// Posts a shutdown to every member's mailbox, so that every writer stops.
    pub fn shutdown(&mut self)
        requires
            old(self).wf(),
        ensures
            final(self).wf(),
            final(self)@ == broadcast_effect(old(self)@, EventView::Shutdown),
    {
        self.broadcast(&RoomEvent::Shutdown);
    }
}

/// The first line the server sends on a new connection.
pub const GREETING: &'static str = "Welcome to budgetchat! What shall I call you?\n";

/// What the server sends before it stops reading from a connection whose
/// first line is no valid name.
pub const REJECTION: &'static str = "Name must be provided and must be alphanumeric\n";

/// Where one connection stands: before its name, as the member with the
/// given id, or done.
#[derive(Debug, Clone, Copy, PartialEq, Eq, Structural)]
pub enum Session {
    Unnamed,
    Named(u64),
    Closed,
}

/// What handling one line of a connection came to.
#[derive(Debug, PartialEq, Eq)]
pub enum LineOutcome {
    /// The name was refused; the connection is closed.
    Rejected,
    /// The connection joined as `user_id`; `roster` lists who was there before.
    Joined { user_id: u64, roster: String },
    /// The line was posted to every member.
    Relayed,
    /// The line starts with `*` and was dropped.
    Ignored,
    /// The connection was already closed.
    Finished,
}

/// The mathematical value of a [`LineOutcome`].
pub enum OutcomeView {
    Rejected,
    Joined(u64, Seq<char>),
    Relayed,
    Ignored,
    Finished,
}

impl View for LineOutcome {
    type V = OutcomeView;

    open spec fn view(&self) -> OutcomeView {
        match self {
            LineOutcome::Rejected => OutcomeView::Rejected,
            LineOutcome::Joined { user_id, roster } => OutcomeView::Joined(*user_id, roster@),
            LineOutcome::Relayed => OutcomeView::Relayed,
            LineOutcome::Ignored => OutcomeView::Ignored,
            LineOutcome::Finished => OutcomeView::Finished,
        }
    }
}

/// The roster line sent to a member that has just joined.
pub open spec fn roster_text(roster: Seq<char>) -> Seq<char> {
    "* The room contains: "@ + roster + "\n"@
}

/// What a writer shows when `name` joins.
pub open spec fn entered_text(name: Seq<char>) -> Seq<char> {
    "* "@ + name + " has entered the room\n"@
}

/// What a writer shows when `name` leaves.
pub open spec fn left_text(name: Seq<char>) -> Seq<char> {
    "* "@ + name + " has left the room\n"@
}

/// What a writer shows when `name` says `text`.
pub open spec fn message_text(name: Seq<char>, text: Seq<char>) -> Seq<char> {
    "["@ + name + "] "@ + text + "\n"@
}

/// One line of a connection in state `s`: the room after it, the state
/// after it, and the outcome. The first line, as sent, is the name; every
/// later line is a message, dropped when it starts with `*`.
pub open spec fn line_step(c: ChatView, s: Session, line: Seq<char>) -> (ChatView, Session, OutcomeView) {
    match s {
        Session::Unnamed => {
            if valid_name(line) {
                let id = c.next_id as u64;
                (join_effect(c, line), Session::Named(id), OutcomeView::Joined(id, roster(c.members)))
            } else {
                (c, Session::Closed, OutcomeView::Rejected)
            }
        },
        Session::Named(id) => {
            if starts_with(line, '*') {
                (c, s, OutcomeView::Ignored)
            } else {
                (broadcast_effect(c, EventView::Message(id, line)), s, OutcomeView::Relayed)
            }
        },
        Session::Closed => (c, s, OutcomeView::Finished),
    }
}

/// The end of a connection in state `s`: a named member leaves the room.
pub open spec fn leave_step(c: ChatView, s: Session) -> (ChatView, Session) {
    match s {
        Session::Named(id) => (leave_effect(c, id), Session::Closed),
        _ => (c, Session::Closed),
    }
}

/// What a member's writer does with one event from its mailbox.
#[derive(Debug, PartialEq, Eq)]
pub enum Delivery {
    /// Writes this text to the member's connection.
    Write(String),
    /// Writes nothing.
    Skip,
    /// Stops the writer.
    Stop,
}

/// The mathematical value of a [`Delivery`].
pub enum DeliveryView {
    Write(Seq<char>),
    Skip,
    Stop,
}

impl View for Delivery {
    type V = DeliveryView;

    open spec fn view(&self) -> DeliveryView {
        match self {
            Delivery::Write(t) => DeliveryView::Write(t@),
            Delivery::Skip => DeliveryView::Skip,
            Delivery::Stop => DeliveryView::Stop,
        }
    }
}

/// The name of the member `id` in `c`.
pub open spec fn name_of(c: ChatView, id: u64) -> Seq<char> {
    c.members[index_of(c.members, id)].name
}

/// What the writer of member `user` does with `e`, given the room `c` at
/// the time of delivery. A member sees neither its own join nor its own
/// messages; its own leave, and a shutdown, stop its writer; an event of a
/// member that is gone by now is skipped.
pub open spec fn render_spec(c: ChatView, user: u64, e: EventView) -> DeliveryView {
    match e {
        EventView::Join(id) => {
            if id == user || !has_id(c.members, id) {
                DeliveryView::Skip
            } else {
                DeliveryView::Write(entered_text(name_of(c, id)))
            }
        },
        EventView::Leave(id, name) => {
            if id == user {
                DeliveryView::Stop
            } else {
                DeliveryView::Write(left_text(name))
            }
        },
        EventView::Message(id, text) => {
            if id == user || !has_id(c.members, id) {
                DeliveryView::Skip
            } else {
                DeliveryView::Write(message_text(name_of(c, id), text))
            }
        },
        EventView::Shutdown => DeliveryView::Stop,
    }
}

impl LineOutcome {
    /// What the connection is sent in reply: the rejection, or the roster
    /// line; nothing for the other outcomes.
    pub fn reply(&self) -> (r: Option<String>)
        ensures
            self is Rejected ==> r.is_some() && r.unwrap()@ == REJECTION@,
            self is Joined ==> r.is_some() && r.unwrap()@ == roster_text(self->roster@),
            !(self is Rejected || self is Joined) ==> r.is_none(),
    {
        match self {
            LineOutcome::Rejected => Some(String::from_str(REJECTION)),
            LineOutcome::Joined { roster, .. } => {
                let mut t = String::from_str("* The room contains: ");
                t.append(roster.as_str());
                t.append("\n");
                Some(t)
            },
            _ => None,
        }
    }
}

impl BudgetChat {
    /// Handles one complete line of a connection in state `session`, as
    /// [`line_step`] says. Naming is atomic: the roster is read, the id
    /// handed out and the join posted in one call.
    pub fn handle_line(&mut self, session: &mut Session, line: &str) -> (r: LineOutcome)
        requires
            old(self).wf(),
            *old(session) == Session::Unnamed ==> old(self)@.next_id < u64::MAX,
        ensures
            final(self).wf(),
            (final(self)@, *final(session), r@) == line_step(old(self)@, *old(session), line@),
    {
        match *session {
            Session::Unnamed => {
                if !User::is_valid_name(line) {
                    *session = Session::Closed;
                    return LineOutcome::Rejected;
                }
                let roster = self.room_list();
                let user_id = self.add_user(line);
                *session = Session::Named(user_id);
                LineOutcome::Joined { user_id, roster }
            },
            Session::Named(user_id) => {
                let chars = chars_of(line);
                if chars.len() > 0 && chars[0] == '*' {
                    LineOutcome::Ignored
                } else {
                    self.broadcast(&RoomEvent::Message(user_id, String::from_str(line)));
                    LineOutcome::Relayed
                }
            },
            Session::Closed => LineOutcome::Finished,
        }
    }

    /// Ends a connection in state `session`, as [`leave_step`] says: a named
    /// member's leave is posted and the member removed.
    pub fn disconnect(&mut self, session: &mut Session)
        requires
            old(self).wf(),
        ensures
            final(self).wf(),
            (final(self)@, *final(session)) == leave_step(old(self)@, *old(session)),
    {
        match *session {
            Session::Named(user_id) => self.remove_user(user_id),
            _ => {},
        }
        *session = Session::Closed;
    }

    /// What the writer of member `user_id` does with `event`, as
    /// [`render_spec`] says.
    pub fn render_event(&self, user_id: u64, event: &RoomEvent) -> (r: Delivery)
        requires
            self.wf(),
        ensures
            r@ == render_spec(self@, user_id, event@),
    {
        match event {
            RoomEvent::Join(id) => {
                if *id == user_id {
                    return Delivery::Skip;
                }
                match self.name(*id) {
                    Some(name) => {
                        let mut t = String::from_str("* ");
                        t.append(name.as_str());
                        t.append(" has entered the room\n");
                        Delivery::Write(t)
                    },
                    None => Delivery::Skip,
                }
            },
            RoomEvent::Leave(id, name) => {
                if *id == user_id {
                    return Delivery::Stop;
                }
                let mut t = String::from_str("* ");
                t.append(name.as_str());
                t.append(" has left the room\n");
                Delivery::Write(t)
            },
            RoomEvent::Message(id, text) => {
                if *id == user_id {
                    return Delivery::Skip;
                }
                match self.name(*id) {
                    Some(name) => {
                        let mut t = String::from_str("[");
                        t.append(name.as_str());
                        t.append("] ");
                        t.append(text.as_str());
                        t.append("\n");
                        Delivery::Write(t)
                    },
                    None => Delivery::Skip,
                }
            },
            RoomEvent::Shutdown => Delivery::Stop,
        }
    }
}

/// The most bytes a connection may leave without a line ending; beyond
/// that the server closes the connection.
pub const MAX_PENDING: usize = 65536;

/// A line's bytes as they stand before its `\n` (byte 10): one trailing
/// `\r` (byte 13) is dropped.
pub open spec fn strip_cr_bytes(line: Seq<u8>) -> Seq<u8> {
    if line.len() > 0 && line.last() == 13u8 {
        line.drop_last()
    } else {
        line
    }
}

/// Splits bytes at each `\n`: the lines that a `\n` ends (without their
/// line ending), and the bytes after the last `\n`.
pub open spec fn byte_lines_spec(s: Seq<u8>) -> (Seq<Seq<u8>>, Seq<u8>)
    decreases s.len(),
{
    if s.len() == 0 {
        (seq![], seq![])
    } else {
        let (done, rest) = byte_lines_spec(s.drop_last());
        if s.last() == 10u8 {
            (done.push(strip_cr_bytes(rest)), seq![])
        } else {
            (done, rest.push(s.last()))
        }
    }
}

/// Each line decoded as UTF-8, invalid sequences replaced.
pub open spec fn decode_lines(ls: Seq<Seq<u8>>) -> Seq<Seq<char>> {
    ls.map_values(|l: Seq<u8>| utf8_lossy(l))
}

/// The bytes a connection has sent that no line ending has completed yet.
pub struct LineBuffer {
    pending: Vec<u8>,
}

impl View for LineBuffer {
    type V = Seq<u8>;

    closed spec fn view(&self) -> Seq<u8> {
        self.pending@
    }
}

impl LineBuffer {
    /// An empty buffer.
    pub fn new() -> (r: LineBuffer)
        ensures
            r@ == Seq::<u8>::empty(),
    {
        LineBuffer { pending: Vec::new() }
    }

    /// Adds what one read returned and returns the lines that are now
    /// complete, in order, each decoded as UTF-8 with invalid sequences
    /// replaced; the bytes after the last line ending stay in the buffer,
    /// undecoded.
    pub fn push_bytes(&mut self, bytes: &[u8]) -> (r: Vec<String>)
        ensures
            r@.map_values(|l: String| l@) == decode_lines(byte_lines_spec(old(self)@ + bytes@).0),
            final(self)@ == byte_lines_spec(old(self)@ + bytes@).1,
    {
        let ghost all = self.pending@ + bytes@;
        let mut i: usize = 0;
        while i < bytes.len()
            invariant
                i <= bytes@.len(),
                self.pending@ == old(self)@ + bytes@.take(i as int),
            decreases bytes@.len() - i,
        {
            self.pending.push(bytes[i]);
            i = i + 1;
            assert(self.pending@ =~= old(self)@ + bytes@.take(i as int));
        }
        assert(bytes@.take(i as int) =~= bytes@);
        let mut done: Vec<String> = Vec::new();
        let mut rest: Vec<u8> = Vec::new();
        let mut j: usize = 0;
        while j < self.pending.len()
            invariant
                self.pending@ == all,
                j <= all.len(),
                done@.map_values(|l: String| l@) == decode_lines(byte_lines_spec(all.take(j as int)).0),
                rest@ == byte_lines_spec(all.take(j as int)).1,
            decreases all.len() - j,
        {
            let b = self.pending[j];
            assert(all.take(j + 1).drop_last() =~= all.take(j as int));
            if b == 10u8 {
                let ghost prev = rest@;
                if rest.len() > 0 && rest[rest.len() - 1] == 13u8 {
                    rest.pop();
                }
                assert(rest@ == strip_cr_bytes(prev));
                let decoded = decode_lossy(rest.as_slice());
                assert(decoded@ == utf8_lossy(strip_cr_bytes(prev)));
                let line = string_of(&decoded);
                let ghost before = done@.map_values(|l: String| l@);
                let ghost d = byte_lines_spec(all.take(j as int)).0;
                assert(all.take(j + 1).last() == b);
                assert(byte_lines_spec(all.take(j + 1)).0 == d.push(strip_cr_bytes(prev)));
                assert(decode_lines(d.push(strip_cr_bytes(prev))) =~= decode_lines(d).push(
                    utf8_lossy(strip_cr_bytes(prev)),
                ));
                done.push(line);
                assert(done@.map_values(|l: String| l@) =~= before.push(decoded@));
                rest = Vec::new();
                assert(done@.map_values(|l: String| l@) =~= decode_lines(
                    byte_lines_spec(all.take(j + 1)).0,
                ));
            } else {
                rest.push(b);
            }
            j = j + 1;
        }
        assert(all.take(j as int) =~= all);
        self.pending = rest;
        done
    }

    /// Whether more bytes wait for a line ending than [`MAX_PENDING`].
    pub fn over_limit(&self) -> (r: bool)
        ensures
            r == (self@.len() > MAX_PENDING),
    {
        self.pending.len() > MAX_PENDING
    }
}

/// Bytes that hold no line ending are all left pending.
proof fn lemma_no_newline(s: Seq<u8>)
    requires
        forall|i: int| 0 <= i < s.len() ==> s[i] != 10u8,
    ensures
        byte_lines_spec(s) == (Seq::<Seq<u8>>::empty(), s),
    decreases s.len(),
{
    if s.len() > 0 {
        lemma_no_newline(s.drop_last());
        assert(s.drop_last().push(s.last()) =~= s);
    }
}

/// What is left pending holds no line ending.
proof fn lemma_rest_no_newline(s: Seq<u8>)
    ensures
        forall|i: int|
            0 <= i < byte_lines_spec(s).1.len() ==> #[trigger] byte_lines_spec(s).1[i] != 10u8,
    decreases s.len(),
{
    if s.len() > 0 {
        lemma_rest_no_newline(s.drop_last());
        let r = byte_lines_spec(s.drop_last()).1;
        if s.last() != 10u8 {
            assert forall|i: int| 0 <= i < r.push(s.last()).len() implies r.push(s.last())[i]
                != 10u8 by {
                if i < r.len() {
                    assert(r[i] != 10u8);
                }
            }
        }
    }
}

/// Reading the same bytes in other pieces gives the same lines: the lines
/// of `a`, then those of what `a` leaves pending followed by `b`, are the
/// lines of `a` followed by `b`, and the same bytes are left pending.
pub proof fn law_split_across_reads(a: Seq<u8>, b: Seq<u8>)
    ensures
        ({
            let (l1, p1) = byte_lines_spec(a);
            let (l2, p2) = byte_lines_spec(p1 + b);
            &&& byte_lines_spec(a + b) == (l1 + l2, p2)
            &&& decode_lines(l1 + l2) == decode_lines(l1) + decode_lines(l2)
        }),
    decreases b.len(),
{
    let (l1, p1) = byte_lines_spec(a);
    if b.len() == 0 {
        lemma_rest_no_newline(a);
        lemma_no_newline(p1);
        assert(a + b =~= a);
        assert(p1 + b =~= p1);
        assert(l1 + Seq::<Seq<u8>>::empty() =~= l1);
    } else {
        law_split_across_reads(a, b.drop_last());
        assert((a + b).drop_last() =~= a + b.drop_last());
        assert((p1 + b).drop_last() =~= p1 + b.drop_last());
        let (l2, p2) = byte_lines_spec(p1 + b.drop_last());
        assert((l1 + l2).push(strip_cr_bytes(p2)) =~= l1 + l2.push(strip_cr_bytes(p2)));
    }
    let (l2, p2) = byte_lines_spec(p1 + b);
    assert(decode_lines(l1 + l2) =~= decode_lines(l1) + decode_lines(l2));
}

/// Two members of a well-formed room with one id are one member.
proof fn lemma_ids_unique(c: ChatView, i: int, j: int)
    requires
        chat_wf(c),
        0 <= i < c.members.len(),
        0 <= j < c.members.len(),
        c.members[i].id == c.members[j].id,
    ensures
        i == j,
{
    if i < j {
        assert(c.members[i].id < c.members[j].id);
    } else if j < i {
        assert(c.members[j].id < c.members[i].id);
    }
}

/// In a well-formed room, `index_of` finds each member where it stands.
proof fn lemma_index_of(c: ChatView, i: int)
    requires
        chat_wf(c),
        0 <= i < c.members.len(),
    ensures
        has_id(c.members, c.members[i].id),
        index_of(c.members, c.members[i].id) == i,
{
    let id = c.members[i].id;
    assert(c.members[i].id == id);
    let k = index_of(c.members, id);
    lemma_ids_unique(c, k, i);
}

/// Posting to every member keeps the room well formed and every member
/// where it was.
proof fn lemma_broadcast(c: ChatView, e: EventView)
    requires
        chat_wf(c),
    ensures
        chat_wf(broadcast_effect(c, e)),
        broadcast_effect(c, e).members.len() == c.members.len(),
        forall|i: int|
            0 <= i < c.members.len() ==> (#[trigger] broadcast_effect(c, e).members[i]).id
                == c.members[i].id && broadcast_effect(c, e).members[i].name == c.members[i].name
                && broadcast_effect(c, e).members[i].posted == c.members[i].posted.push(e),
        forall|id: u64|
            #[trigger] has_id(broadcast_effect(c, e).members, id) == has_id(c.members, id),
        forall|id: u64|
            has_id(c.members, id) ==> #[trigger] index_of(broadcast_effect(c, e).members, id)
                == index_of(c.members, id),
{
    let c2 = broadcast_effect(c, e);
    assert forall|id: u64| #[trigger] has_id(c2.members, id) == has_id(c.members, id) by {
        if has_id(c.members, id) {
            let k = index_of(c.members, id);
            assert(c2.members[k].id == id);
        }
        if has_id(c2.members, id) {
            let k = index_of(c2.members, id);
            assert(c.members[k].id == id);
        }
    }
    assert forall|id: u64| has_id(c.members, id) implies #[trigger] index_of(c2.members, id)
        == index_of(c.members, id) by {
        let k = index_of(c.members, id);
        lemma_index_of(c2, k);
    }
}

/// A valid name joins the room: the reply lists the names of the members
/// that were there before, in the order they joined, and the newcomer,
/// under a fresh id, becomes the last member, so that it is not among them.
pub proof fn law_valid_name_joins(c: ChatView, line: Seq<char>)
    requires
        chat_wf(c),
        c.next_id < u64::MAX,
        valid_name(line),
    ensures
        ({
            let (after, s, out) = line_step(c, Session::Unnamed, line);
            let id = c.next_id as u64;
            &&& out == OutcomeView::Joined(id, roster(c.members))
            &&& s == Session::Named(id)
            &&& !has_id(c.members, id)
            &&& after.members.last().id == id
            &&& after.members.last().name == line
            &&& roster(after.members.drop_last()) == roster(c.members)
        }),
{
    let id = c.next_id as u64;
    let after = join_effect(c, line);
    if has_id(c.members, id) {
        let k = index_of(c.members, id);
        assert(c.members[k].id < c.next_id);
    }
    assert(after.members.drop_last() =~= post_all(c.members, EventView::Join(id)));
    assert(names(after.members.drop_last()) =~= names(c.members));
}

/// A name that is empty or holds a character that is not alphanumeric is
/// refused: the room is left as it was, so nobody is told of a join.
pub proof fn law_invalid_name_rejected(c: ChatView, line: Seq<char>)
    requires
        !valid_name(line),
    ensures
        line_step(c, Session::Unnamed, line) == (c, Session::Closed, OutcomeView::Rejected),
{
}

/// A message of member `a` reaches the mailbox of every member; member `b`
/// shows it as `[<name of a>] <text>`, and `a` itself shows nothing.
pub proof fn law_message_round_trip(c: ChatView, a: u64, b: u64, text: Seq<char>)
    requires
        chat_wf(c),
        has_id(c.members, a),
        has_id(c.members, b),
        a != b,
        !starts_with(text, '*'),
    ensures
        ({
            let (after, s, out) = line_step(c, Session::Named(a), text);
            let e = EventView::Message(a, text);
            &&& out == OutcomeView::Relayed
            &&& s == Session::Named(a)
            &&& after.members[index_of(after.members, b)].posted.last() == e
            &&& after.members[index_of(after.members, a)].posted.last() == e
            &&& render_spec(after, b, e) == DeliveryView::Write(message_text(name_of(c, a), text))
            &&& render_spec(after, a, e) == DeliveryView::Skip
        }),
{
    let e = EventView::Message(a, text);
    lemma_broadcast(c, e);
}

/// A member that disconnects is announced by exactly one leave: each member
/// that stays gets it once, after what it had, and the leaver is gone, so
/// a second disconnect of the same connection posts nothing.
pub proof fn law_leave_once(c: ChatView, id: u64)
    requires
        chat_wf(c),
        has_id(c.members, id),
    ensures
        ({
            let (c1, s1) = leave_step(c, Session::Named(id));
            let (c2, s2) = leave_step(c1, s1);
            let i = index_of(c.members, id);
            let e = EventView::Leave(id, name_of(c, id));
            &&& s1 == Session::Closed
            &&& c2 == c1
            &&& s2 == Session::Closed
            &&& !has_id(c1.members, id)
            &&& c1.members.len() + 1 == c.members.len()
            &&& forall|j: int|
                0 <= j < c1.members.len() ==> {
                    let k = if j < i {
                        j
                    } else {
                        j + 1
                    };
                    &&& (#[trigger] c1.members[j]).id == c.members[k].id
                    &&& c1.members[j].name == c.members[k].name
                    &&& c1.members[j].posted == c.members[k].posted.push(e)
                }
        }),
{
    let i = index_of(c.members, id);
    let e = EventView::Leave(id, name_of(c, id));
    let c1 = leave_effect(c, id);
    lemma_index_of(c, i);
    if has_id(c1.members, id) {
        let j = index_of(c1.members, id);
        if j < i {
            assert(c.members[j].id == id);
            lemma_ids_unique(c, i, j);
        } else {
            assert(c.members[j + 1].id == id);
            lemma_ids_unique(c, i, j + 1);
        }
    }
}

/// Two lines that member `a` relays one after the other reach every
/// member's mailbox in that order, one right after the other.
pub proof fn law_messages_in_order(c: ChatView, a: u64, m1: Seq<char>, m2: Seq<char>)
    requires
        chat_wf(c),
        !starts_with(m1, '*'),
        !starts_with(m2, '*'),
    ensures
        ({
            let (c1, s1, o1) = line_step(c, Session::Named(a), m1);
            let (c2, s2, o2) = line_step(c1, s1, m2);
            &&& o1 == OutcomeView::Relayed
            &&& o2 == OutcomeView::Relayed
            &&& c2.members.len() == c.members.len()
            &&& forall|j: int|
                0 <= j < c.members.len() ==> (#[trigger] c2.members[j]).id == c.members[j].id
                    && c2.members[j].posted == c.members[j].posted + seq![
                    EventView::Message(a, m1),
                    EventView::Message(a, m2),
                ]
        }),
{
    let e1 = EventView::Message(a, m1);
    let e2 = EventView::Message(a, m2);
    lemma_broadcast(c, e1);
    let c1 = broadcast_effect(c, e1);
    lemma_broadcast(c1, e2);
    let c2 = broadcast_effect(c1, e2);
    assert forall|j: int| 0 <= j < c.members.len() implies (#[trigger] c2.members[j]).id
        == c.members[j].id && c2.members[j].posted == c.members[j].posted + seq![e1, e2] by {
        assert(c2.members[j].posted =~= c.members[j].posted + seq![e1, e2]);
    }
}

/// Leaving keeps the room well formed.
proof fn lemma_leave_wf(c: ChatView, id: u64)
    requires
        chat_wf(c),
        has_id(c.members, id),
    ensures
        chat_wf(leave_effect(c, id)),
{
    let i = index_of(c.members, id);
    let e = EventView::Leave(id, c.members[i].name);
    lemma_broadcast(c, e);
    let m = post_all(c.members, e);
    let r = m.remove(i);
    assert forall|a: int| 0 <= a < r.len() implies 0 < #[trigger] r[a].id < c.next_id by {
        let a2 = if a < i {
            a
        } else {
            a + 1
        };
        assert(r[a] == m[a2]);
    }
    assert forall|a: int, b: int| 0 <= a < b < r.len() implies #[trigger] r[a].id
        < #[trigger] r[b].id by {
        let a2 = if a < i {
            a
        } else {
            a + 1
        };
        let b2 = if b < i {
            b
        } else {
            b + 1
        };
        assert(r[a] == m[a2]);
        assert(r[b] == m[b2]);
        assert(c.members[a2].id < c.members[b2].id);
    }
}

/// Two members that disconnect one after the other are each announced by
/// exactly one leave: every member that stays gets both leaves, in that
/// order, right after what it had, and neither leaver is left in the room.
pub proof fn law_leaves_of_two(c: ChatView, a: u64, b: u64)
    requires
        chat_wf(c),
        has_id(c.members, a),
        has_id(c.members, b),
        a != b,
    ensures
        ({
            let (c1, s1) = leave_step(c, Session::Named(a));
            let (c2, s2) = leave_step(c1, Session::Named(b));
            let ea = EventView::Leave(a, name_of(c, a));
            let eb = EventView::Leave(b, name_of(c, b));
            &&& !has_id(c2.members, a)
            &&& !has_id(c2.members, b)
            &&& c2.members.len() + 2 == c.members.len()
            &&& forall|j: int|
                0 <= j < c2.members.len() ==> has_id(c.members, (#[trigger] c2.members[j]).id)
                    && c2.members[j].posted == c.members[index_of(
                    c.members,
                    c2.members[j].id,
                )].posted + seq![ea, eb]
        }),
{
    let ia = index_of(c.members, a);
    let ib = index_of(c.members, b);
    let ea = EventView::Leave(a, name_of(c, a));
    let eb = EventView::Leave(b, name_of(c, b));
    law_leave_once(c, a);
    lemma_leave_wf(c, a);
    let c1 = leave_effect(c, a);
    if ia == ib {
        assert(c.members[ia].id == a && c.members[ib].id == b);
    }
    let jb = if ib < ia {
        ib
    } else {
        ib - 1
    };
    assert(c1.members[jb].id == c.members[ib].id);
    lemma_index_of(c1, jb);
    assert(name_of(c1, b) == name_of(c, b));
    law_leave_once(c1, b);
    let c2 = leave_effect(c1, b);
    assert forall|j: int| 0 <= j < c2.members.len() implies has_id(
        c.members,
        (#[trigger] c2.members[j]).id,
    ) && c2.members[j].posted == c.members[index_of(c.members, c2.members[j].id)].posted + seq![
        ea,
        eb,
    ] by {
        let k1 = if j < jb {
            j
        } else {
            j + 1
        };
        let k = if k1 < ia {
            k1
        } else {
            k1 + 1
        };
        assert(c1.members[k1].id == c.members[k].id);
        lemma_index_of(c, k);
        assert(c2.members[j].posted =~= c.members[k].posted + seq![ea, eb]);
    }
    if has_id(c2.members, a) {
        let j = index_of(c2.members, a);
        let k1 = if j < jb {
            j
        } else {
            j + 1
        };
        assert(c1.members[k1].id == a);
    }
}

} // verus!
