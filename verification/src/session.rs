use vstd::prelude::*;

use crate::auth::is_auth_error;
use crate::protocol::{ClientMessage, ServerMessage};
use crate::registry::{
    get_client_room, list_rooms, members_of_room, move_client_to_room, name_taken, names_distinct,
    occupied_rooms, room_members, username_exists, Client, Clients,
};
use crate::text::{concatenate, strictly_ascending, texts, trim, trimmed};

verus! {

/// The room every connection starts in and returns to.
pub open spec fn lobby() -> Seq<char> {
    "lobby"@
}

/// One notice for a set of connections.
pub struct Delivery {
    /// The connections to send it to, each once.
    pub recipients: Vec<usize>,
    pub message: ServerMessage,
}

/// `d` goes to exactly the connections in `room`, each once.
pub open spec fn delivers_to_room<T>(d: Delivery, m: Map<usize, Client<T>>, room: Seq<char>) -> bool {
    &&& d.recipients@.no_duplicates()
    &&& d.recipients@.to_set() == room_members(m, room)
}

/// `msg` is a `System` notice with the text `text`.
pub open spec fn is_system(msg: ServerMessage, text: Seq<char>) -> bool {
    msg matches ServerMessage::System { message } && message@ == text
}

/// The notice that `username` came into `room`.
pub open spec fn joined_text(username: Seq<char>, room: Seq<char>) -> Seq<char> {
    username + " joined "@ + room
}

/// The notice that `username` went away from `room`.
pub open spec fn left_text(username: Seq<char>, room: Seq<char>) -> Seq<char> {
    username + " left "@ + room
}

fn notice(username: &str, verb: &str, room: &str) -> (r: String)
    ensures
        r@ == username@ + verb@ + room@,
{
    let head = concatenate(username, verb);
    concatenate(head.as_str(), room)
}

/// A `System` notice with `message` for everybody in `room`.
pub fn broadcast_system_to_room<T>(clients: &Clients<T>, room: &str, message: &str) -> (d: Delivery)
    ensures
        delivers_to_room(d, clients.view(), room@),
        is_system(d.message, message@),
{
    Delivery {
        recipients: members_of_room(clients, room),
        message: ServerMessage::System { message: message.to_string() },
    }
}

/// A chat line by `username` for everybody in `room`.
pub fn broadcast_chat_to_room<T>(clients: &Clients<T>, username: &str, room: &str, message: &str) -> (d:
    Delivery)
    ensures
        delivers_to_room(d, clients.view(), room@),
        d.message matches ServerMessage::Chat { username: u, room: r, message: m } && u@
            == username@ && r@ == room@ && m@ == message@,
{
    Delivery {
        recipients: members_of_room(clients, room),
        message: ServerMessage::Chat {
            username: username.to_string(),
            room: room.to_string(),
            message: message.to_string(),
        },
    }
}

/// Every room somebody is in has a name: nothing but the name remains after
/// trimming, and something does.
pub open spec fn rooms_named<T>(m: Map<usize, Client<T>>) -> bool {
    forall|id: usize| #[trigger]
        m.contains_key(id) ==> trimmed(m[id].room@) == m[id].room@ && m[id].room@.len() > 0
}

/// "lobby" is a room name.
pub proof fn lemma_lobby_is_named()
    ensures
        trimmed(lobby()) == lobby(),
        lobby().len() > 0,
{
    reveal_strlit("lobby");
    assert(trimmed(lobby()) == lobby()) by {
        reveal_with_fuel(crate::text::trim_start_seq, 2);
        reveal_with_fuel(crate::text::trim_end_seq, 2);
    }
}

/// The outcome of a signed-in connection's arrival.
pub enum Admission {
    /// Send this message and close the connection.
    Refused(ServerMessage),
    /// Send `replies` on the connection, then `announcement`.
    Admitted { replies: Vec<ServerMessage>, announcement: Delivery },
}

/// `after` is `before` with connection `id` signed in as `username` in the
/// lobby.
pub open spec fn added<T>(
    before: Map<usize, Client<T>>,
    after: Map<usize, Client<T>>,
    id: usize,
    username: String,
    tx: T,
) -> bool {
    &&& after.dom() == before.dom().insert(id)
    &&& after[id].username == username
    &&& after[id].room@ == lobby()
    &&& after[id].tx == tx
    &&& forall|k: usize| k != id ==> #[trigger] after.get(k) == before.get(k)
}

/// Lets a connection that signed in as `username` into the lobby, unless
/// somebody is already signed in under that name, ignoring the case of
/// ASCII letters.
pub fn register_client<T>(clients: &mut Clients<T>, client_id: usize, username: String, tx: T) -> (r:
    Admission)
    ensures
        name_taken(old(clients).view(), username@) ==> {
            &&& final(clients).view() == old(clients).view()
            &&& r matches Admission::Refused(m) && is_auth_error(
                m,
                "This user is already logged in"@,
            )
        },
        !name_taken(old(clients).view(), username@) ==> {
            &&& added(old(clients).view(), final(clients).view(), client_id, username, tx)
            &&& r matches Admission::Admitted { replies, announcement } && {
                &&& replies@.len() == 3
                &&& replies@[0] is AuthOk
                &&& replies@[1] matches ServerMessage::Welcome { message } && message@ == "Welcome "@
                    + username@
                &&& replies@[2] matches ServerMessage::RoomJoined { room } && room@ == lobby()
                &&& delivers_to_room(announcement, final(clients).view(), lobby())
                &&& is_system(announcement.message, joined_text(username@, lobby()))
            }
        },
        names_distinct(old(clients).view()) ==> names_distinct(final(clients).view()),
        rooms_named(old(clients).view()) ==> rooms_named(final(clients).view()),
{
    if username_exists(clients, username.as_str()) {
        return Admission::Refused(
            ServerMessage::AuthError { message: "This user is already logged in".to_string() },
        );
    }
    let ghost before = clients.view();
    let lobby_name = "lobby".to_string();
    let welcome = concatenate("Welcome ", username.as_str());
    let announcement_text = notice(username.as_str(), " joined ", lobby_name.as_str());
    let ghost name = username;
    clients.insert(client_id, Client { username, room: "lobby".to_string(), tx });
    proof {
        let after = clients.view();
        assert(after.dom() =~= before.dom().insert(client_id));
        assert forall|k: usize| k != client_id implies #[trigger] after.get(k) == before.get(k) by {}
        if names_distinct(before) {
            assert forall|a: usize, b: usize|
                #[trigger] after.contains_key(a) && #[trigger] after.contains_key(b) && a != b
                    implies !crate::text::eq_ignore_ascii_case_seq(
                    after[a].username@,
                    after[b].username@,
                ) by {
                if a == client_id {
                    assert(before.contains_key(b));
                    assert(!crate::text::eq_ignore_ascii_case_seq(before[b].username@, name@));
                } else if b == client_id {
                    assert(before.contains_key(a));
                    assert(!crate::text::eq_ignore_ascii_case_seq(before[a].username@, name@));
                } else {
                    assert(before.contains_key(a) && before.contains_key(b));
                }
            }
        }
        lemma_lobby_is_named();
        if rooms_named(before) {
            assert forall|id: usize| #[trigger] after.contains_key(id) implies trimmed(after[id].room@)
                == after[id].room@ && after[id].room@.len() > 0 by {
                if id != client_id {
                    assert(before.contains_key(id));
                }
            }
        }
    }
    let mut replies: Vec<ServerMessage> = Vec::new();
    replies.push(ServerMessage::AuthOk);
    replies.push(ServerMessage::Welcome { message: welcome });
    replies.push(ServerMessage::RoomJoined { room: lobby_name });
    let announcement = broadcast_system_to_room(clients, "lobby", announcement_text.as_str());
    Admission::Admitted { replies, announcement }
}


/// A chat line to keep: who said it, where, and what.
pub struct ChatRecord {
    pub username: String,
    pub room: String,
    pub message: String,
}

/// What a signed-in connection's message leads to: a chat line to store,
/// then notices to send, in order.
pub struct Reaction {
    pub record: Option<ChatRecord>,
    pub deliveries: Vec<Delivery>,
}

/// Nothing happens.
pub open spec fn quiet<T>(before: Map<usize, Client<T>>, after: Map<usize, Client<T>>, r: Reaction) -> bool {
    &&& after == before
    &&& r.record is None
    &&& r.deliveries@.len() == 0
}

/// `after` is `before` with connection `id` moved to `room`.
pub open spec fn moved<T>(
    before: Map<usize, Client<T>>,
    after: Map<usize, Client<T>>,
    id: usize,
    room: Seq<char>,
) -> bool {
    &&& before.contains_key(id)
    &&& after.dom() == before.dom()
    &&& after[id].username == before[id].username
    &&& after[id].tx == before[id].tx
    &&& after[id].room@ == room
    &&& forall|k: usize| k != id ==> #[trigger] after.get(k) == before.get(k)
}

/// The notices of a move of connection `id` to `room`: the confirmation for
/// the mover, and, when the room changed, a leave notice for the old room
/// and a join notice for the new one.
pub open spec fn move_notices<T>(
    before: Map<usize, Client<T>>,
    after: Map<usize, Client<T>>,
    id: usize,
    room: Seq<char>,
    deliveries: Seq<Delivery>,
) -> bool {
    let name = before[id].username@;
    let old_room = before[id].room@;
    &&& deliveries.len() == if old_room == room {
        1int
    } else {
        3int
    }
    &&& deliveries[0].recipients@ == seq![id]
    &&& deliveries[0].message matches ServerMessage::RoomJoined { room: r } && r@ == room
    &&& old_room != room ==> {
        &&& delivers_to_room(deliveries[1], after, old_room)
        &&& is_system(deliveries[1].message, left_text(name, old_room))
        &&& delivers_to_room(deliveries[2], after, room)
        &&& is_system(deliveries[2].message, joined_text(name, room))
    }
}

/// A request of connection `id` to move to `room`.
pub open spec fn move_spec<T>(
    before: Map<usize, Client<T>>,
    after: Map<usize, Client<T>>,
    id: usize,
    room: Seq<char>,
    r: Reaction,
) -> bool {
    if !before.contains_key(id) {
        quiet(before, after, r)
    } else {
        &&& moved(before, after, id, room)
        &&& r.record is None
        &&& move_notices(before, after, id, room, r.deliveries@)
    }
}

/// What the server does with a message of the signed-in connection `id`,
/// signed in as `username`; `None` stands for a line that is not a valid
/// message.
pub open spec fn reaction_spec<T>(
    before: Map<usize, Client<T>>,
    after: Map<usize, Client<T>>,
    id: usize,
    username: Seq<char>,
    msg: Option<ClientMessage>,
    r: Reaction,
) -> bool {
    match msg {
        Some(ClientMessage::Chat { message }) => {
            let text = trimmed(message@);
            if text.len() == 0 || !before.contains_key(id) {
                quiet(before, after, r)
            } else {
                let room = before[id].room@;
                &&& after == before
                &&& r.record matches Some(rec) && rec.username@ == username && rec.room@ == room
                    && rec.message@ == text
                &&& r.deliveries@.len() == 1
                &&& delivers_to_room(r.deliveries@[0], before, room)
                &&& r.deliveries@[0].message matches ServerMessage::Chat {
                    username: u,
                    room: rm,
                    message: m,
                } && u@ == username && rm@ == room && m@ == text
            }
        },
        Some(ClientMessage::JoinRoom { room }) => {
            let target = trimmed(room@);
            if target.len() == 0 {
                quiet(before, after, r)
            } else {
                move_spec(before, after, id, target, r)
            }
        },
        Some(ClientMessage::LeaveRoom) => move_spec(before, after, id, lobby(), r),
        Some(ClientMessage::ListRooms) => {
            &&& after == before
            &&& r.record is None
            &&& r.deliveries@.len() == 1
            &&& r.deliveries@[0].recipients@ == if before.contains_key(id) {
                seq![id]
            } else {
                Seq::<usize>::empty()
            }
            &&& r.deliveries@[0].message matches ServerMessage::RoomList { rooms } && strictly_ascending(
                texts(rooms@),
            ) && texts(rooms@).to_set() == occupied_rooms(before)
        },
        _ => quiet(before, after, r),
    }
}

fn to_self<T>(clients: &Clients<T>, client_id: usize, message: ServerMessage) -> (d: Delivery)
    ensures
        d.recipients@ == if clients.view().contains_key(client_id) {
            seq![client_id]
        } else {
            Seq::<usize>::empty()
        },
        d.message == message,
{
    let mut recipients: Vec<usize> = Vec::new();
    if clients.get(client_id).is_some() {
        recipients.push(client_id);
    }
    Delivery { recipients, message }
}

fn change_room<T>(clients: &mut Clients<T>, client_id: usize, room: &str) -> (r: Reaction)
    requires
        trimmed(room@) == room@,
        room@.len() > 0,
    ensures
        move_spec(old(clients).view(), final(clients).view(), client_id, room@, r),
        names_distinct(old(clients).view()) ==> names_distinct(final(clients).view()),
        rooms_named(old(clients).view()) ==> rooms_named(final(clients).view()),
{
    let ghost before = clients.view();
    match move_client_to_room(clients, client_id, room) {
        None => Reaction { record: None, deliveries: Vec::new() },
        Some((username, old_room)) => {
            proof {
                let after = clients.view();
                assert forall|k: usize| k != client_id implies #[trigger] after.get(k) == before.get(
                    k,
                ) by {}
                if names_distinct(before) {
                    assert forall|a: usize, b: usize|
                        #[trigger] after.contains_key(a) && #[trigger] after.contains_key(b) && a
                            != b implies !crate::text::eq_ignore_ascii_case_seq(
                        after[a].username@,
                        after[b].username@,
                    ) by {
                        assert(after.get(a) == before.get(a) || a == client_id);
                        assert(after.get(b) == before.get(b) || b == client_id);
                        assert(after[a].username == before[a].username);
                        assert(after[b].username == before[b].username);
                    }
                }
                if rooms_named(before) {
                    assert forall|id: usize| #[trigger] after.contains_key(id) implies trimmed(
                        after[id].room@,
                    ) == after[id].room@ && after[id].room@.len() > 0 by {
                        if id != client_id {
                            assert(after.get(id) == before.get(id));
                        }
                    }
                }
            }
            let mut deliveries: Vec<Delivery> = Vec::new();
            deliveries.push(
                to_self(clients, client_id, ServerMessage::RoomJoined { room: room.to_string() }),
            );
            if !crate::text::same_text(old_room.as_str(), room) {
                let left = notice(username.as_str(), " left ", old_room.as_str());
                deliveries.push(broadcast_system_to_room(clients, old_room.as_str(), left.as_str()));
                let joined = notice(username.as_str(), " joined ", room);
                deliveries.push(broadcast_system_to_room(clients, room, joined.as_str()));
            }
            Reaction { record: None, deliveries }
        },
    }
}

/// Reacts to a message of the signed-in connection `client_id`, signed in
/// as `username`; `None` stands for a line that is not a valid message.
pub fn handle_message<T>(
    clients: &mut Clients<T>,
    client_id: usize,
    username: &str,
    msg: Option<ClientMessage>,
) -> (r: Reaction)
    ensures
        reaction_spec(old(clients).view(), final(clients).view(), client_id, username@, msg, r),
        names_distinct(old(clients).view()) ==> names_distinct(final(clients).view()),
        rooms_named(old(clients).view()) ==> rooms_named(final(clients).view()),
{
    match msg {
        Some(ClientMessage::Chat { message }) => {
            let text = trim(message.as_str());
            if text.as_str().is_empty() {
                return Reaction { record: None, deliveries: Vec::new() };
            }
            match get_client_room(clients, client_id) {
                None => Reaction { record: None, deliveries: Vec::new() },
                Some(room) => {
                    let d = broadcast_chat_to_room(clients, username, room.as_str(), text.as_str());
                    let mut deliveries: Vec<Delivery> = Vec::new();
                    deliveries.push(d);
                    let record = ChatRecord { username: username.to_string(), room, message: text };
                    Reaction { record: Some(record), deliveries }
                },
            }
        },
        Some(ClientMessage::JoinRoom { room }) => {
            let target = trim(room.as_str());
            if target.as_str().is_empty() {
                return Reaction { record: None, deliveries: Vec::new() };
            }
            proof {
                crate::text::lemma_trimmed_idempotent(room@);
            }
            change_room(clients, client_id, target.as_str())
        },
        Some(ClientMessage::LeaveRoom) => {
            proof {
                lemma_lobby_is_named();
            }
            change_room(clients, client_id, "lobby")
        },
        Some(ClientMessage::ListRooms) => {
            let rooms = list_rooms(clients);
            let mut deliveries: Vec<Delivery> = Vec::new();
            deliveries.push(to_self(clients, client_id, ServerMessage::RoomList { rooms }));
            Reaction { record: None, deliveries }
        },
        _ => Reaction { record: None, deliveries: Vec::new() },
    }
}

/// The room a connection is counted in when it goes away: its room, or the
/// lobby if it was not signed in.
pub open spec fn room_at_exit<T>(m: Map<usize, Client<T>>, id: usize) -> Seq<char> {
    if m.contains_key(id) {
        m[id].room@
    } else {
        lobby()
    }
}

/// Signs out connection `client_id`, signed in as `username`, and tells
/// the room it was in.
pub fn disconnect<T>(clients: &mut Clients<T>, client_id: usize, username: &str) -> (d: Delivery)
    ensures
        final(clients).view() == old(clients).view().remove(client_id),
        delivers_to_room(d, final(clients).view(), room_at_exit(old(clients).view(), client_id)),
        is_system(d.message, left_text(username@, room_at_exit(old(clients).view(), client_id))),
        names_distinct(old(clients).view()) ==> names_distinct(final(clients).view()),
        rooms_named(old(clients).view()) ==> rooms_named(final(clients).view()),
{
    let room = match get_client_room(clients, client_id) {
        Some(room) => room,
        None => "lobby".to_string(),
    };
    let _ = clients.remove(client_id);
    let text = notice(username, " left ", room.as_str());
    broadcast_system_to_room(clients, room.as_str(), text.as_str())
}


/// A chat line from a signed-in connection reaches that connection too.
pub proof fn lemma_chat_reaches_sender<T>(
    before: Map<usize, Client<T>>,
    after: Map<usize, Client<T>>,
    id: usize,
    username: Seq<char>,
    message: String,
    r: Reaction,
)
    requires
        reaction_spec(before, after, id, username, Some(ClientMessage::Chat { message }), r),
        before.contains_key(id),
        trimmed(message@).len() > 0,
    ensures
        r.deliveries@.len() == 1,
        r.deliveries@[0].recipients@.contains(id),
{
    let d = r.deliveries@[0];
    assert(room_members(before, before[id].room@).contains(id));
    assert(d.recipients@.to_set().contains(id));
}

/// After a connection moved to a room, a list of rooms names that room.
pub proof fn lemma_joined_room_is_listed<T>(
    m0: Map<usize, Client<T>>,
    m1: Map<usize, Client<T>>,
    m2: Map<usize, Client<T>>,
    id: usize,
    username: Seq<char>,
    room: String,
    r1: Reaction,
    asker: usize,
    asker_name: Seq<char>,
    r2: Reaction,
)
    requires
        reaction_spec(m0, m1, id, username, Some(ClientMessage::JoinRoom { room }), r1),
        m0.contains_key(id),
        trimmed(room@).len() > 0,
        reaction_spec(m1, m2, asker, asker_name, Some(ClientMessage::ListRooms), r2),
    ensures
        r2.deliveries@[0].message matches ServerMessage::RoomList { rooms } && texts(
            rooms@,
        ).to_set().contains(trimmed(room@)),
{
    assert(m1.contains_key(id) && m1[id].room@ == trimmed(room@));
    assert(occupied_rooms(m1).contains(trimmed(room@)));
}

/// Once a connection is signed out, no notice to any room reaches it.
pub proof fn lemma_departed_hears_nothing<T>(
    before: Map<usize, Client<T>>,
    after: Map<usize, Client<T>>,
    id: usize,
    d: Delivery,
    room: Seq<char>,
)
    requires
        after == before.remove(id),
        delivers_to_room(d, after, room),
    ensures
        !d.recipients@.contains(id),
{
    if d.recipients@.contains(id) {
        assert(d.recipients@.to_set().contains(id));
    }
}

/// Once somebody is signed in, a second sign-in under the same name, up to
/// the case of ASCII letters, finds the name taken and is refused.
pub proof fn lemma_second_session_refused<T>(
    before: Map<usize, Client<T>>,
    after: Map<usize, Client<T>>,
    id: usize,
    username: String,
    tx: T,
    other: Seq<char>,
)
    requires
        added(before, after, id, username, tx),
        crate::text::eq_ignore_ascii_case_seq(username@, other),
    ensures
        name_taken(after, other),
{
    assert(after.contains_key(id));
}


/// A `/join <room>` typed on the client moves the connection to exactly
/// the room that the client sent: the server's own trimming keeps it.
pub proof fn lemma_join_command_moves_client<T>(
    text: Seq<char>,
    room: String,
    before: Map<usize, Client<T>>,
    after: Map<usize, Client<T>>,
    id: usize,
    username: Seq<char>,
    r: Reaction,
)
    requires
        crate::client::command_spec(text, Some(ClientMessage::JoinRoom { room })),
        reaction_spec(before, after, id, username, Some(ClientMessage::JoinRoom { room }), r),
        before.contains_key(id),
    ensures
        after.contains_key(id),
        after[id].room@ == room@,
{
    let typed = trimmed(text.skip("/join "@.len() as int));
    crate::text::lemma_trimmed_idempotent(text.skip("/join "@.len() as int));
    if text == "/leave"@ || text == "/rooms"@ {
    } else {
        assert(room@ == typed);
        assert(trimmed(room@) == room@);
    }
}

/// A delivery for a room reaches exactly the connections whose room is that
/// very text, each once.
pub proof fn lemma_delivery_reaches_exactly_room<T>(d: Delivery, m: Map<usize, Client<T>>, room: Seq<char>)
    requires
        delivers_to_room(d, m, room),
    ensures
        d.recipients@.no_duplicates(),
        forall|k: usize| #[trigger]
            d.recipients@.contains(k) <==> (m.contains_key(k) && m[k].room@ == room),
{
    crate::registry::lemma_room_members_exact(m, room, d.recipients@);
}

/// A chat line is stored and sent labelled with the sender's current room,
/// under the sender's name and with the trimmed text, and it goes to exactly
/// the connections in that room.
pub proof fn lemma_chat_labelled_with_sender_room<T>(
    before: Map<usize, Client<T>>,
    after: Map<usize, Client<T>>,
    id: usize,
    username: Seq<char>,
    message: String,
    r: Reaction,
)
    requires
        reaction_spec(before, after, id, username, Some(ClientMessage::Chat { message }), r),
        before.contains_key(id),
        trimmed(message@).len() > 0,
    ensures
        r.deliveries@.len() == 1,
        r.deliveries@[0].message matches ServerMessage::Chat { username: u, room: rm, message: m }
            && rm@ == before[id].room@ && u@ == username && m@ == trimmed(message@),
        r.record matches Some(rec) && rec.room@ == before[id].room@ && rec.username@ == username
            && rec.message@ == trimmed(message@),
        forall|k: usize| #[trigger]
            r.deliveries@[0].recipients@.contains(k) <==> (before.contains_key(k) && before[k].room@
                == before[id].room@),
{
    lemma_delivery_reaches_exactly_room(r.deliveries@[0], before, before[id].room@);
}

/// A move to another room: the mover is in the new room afterwards and
/// nobody else moved; the mover gets the confirmation and the join notice
/// of the new room, not the leave notice, which goes to exactly those left
/// in the old room; the join notice goes to exactly those in the new room.
/// A move to the room one is already in only confirms it.
pub proof fn lemma_move_notices_go_to_the_right_rooms<T>(
    before: Map<usize, Client<T>>,
    after: Map<usize, Client<T>>,
    id: usize,
    room: Seq<char>,
    r: Reaction,
)
    requires
        move_spec(before, after, id, room, r),
        before.contains_key(id),
    ensures
        after.contains_key(id) && after[id].room@ == room,
        after[id].username == before[id].username,
        forall|k: usize| k != id ==> #[trigger] after.get(k) == before.get(k),
        r.record is None,
        r.deliveries@[0].recipients@ == seq![id],
        r.deliveries@[0].message matches ServerMessage::RoomJoined { room: rm } && rm@ == room,
        before[id].room@ == room ==> r.deliveries@.len() == 1,
        before[id].room@ != room ==> {
            &&& r.deliveries@.len() == 3
            &&& !r.deliveries@[1].recipients@.contains(id)
            &&& r.deliveries@[2].recipients@.contains(id)
            &&& forall|k: usize| #[trigger]
                r.deliveries@[1].recipients@.contains(k) <==> (k != id && before.contains_key(k)
                    && before[k].room@ == before[id].room@)
            &&& forall|k: usize| #[trigger]
                r.deliveries@[2].recipients@.contains(k) <==> (after.contains_key(k)
                    && after[k].room@ == room)
        },
{
    if before[id].room@ != room {
        lemma_delivery_reaches_exactly_room(r.deliveries@[1], after, before[id].room@);
        lemma_delivery_reaches_exactly_room(r.deliveries@[2], after, room);
        assert forall|k: usize| #[trigger]
            r.deliveries@[1].recipients@.contains(k) <==> (k != id && before.contains_key(k)
                && before[k].room@ == before[id].room@) by {
            if k != id {
                assert(after.get(k) == before.get(k));
                assert(after.contains_key(k) == before.contains_key(k));
            }
        }
    }
}

/// Leaving a room puts the connection back in the lobby.
pub proof fn lemma_leave_returns_to_lobby<T>(
    before: Map<usize, Client<T>>,
    after: Map<usize, Client<T>>,
    id: usize,
    username: Seq<char>,
    r: Reaction,
)
    requires
        reaction_spec(before, after, id, username, Some(ClientMessage::LeaveRoom), r),
        before.contains_key(id),
    ensures
        after.contains_key(id),
        after[id].room@ == "lobby"@,
{
}

/// Messages that a signed-in connection cannot use change nothing and send
/// nothing: a line that is not a message, a sign-up or sign-in, a blank chat
/// line, a join without a room, and anything from a connection that is not
/// signed in (but a request for the room list, which is answered to nobody).
pub proof fn lemma_unusable_messages_do_nothing<T>(
    before: Map<usize, Client<T>>,
    after: Map<usize, Client<T>>,
    id: usize,
    username: Seq<char>,
    msg: Option<ClientMessage>,
    r: Reaction,
)
    requires
        reaction_spec(before, after, id, username, msg, r),
        ({
            ||| msg is None
            ||| msg matches Some(ClientMessage::Register { .. })
            ||| msg matches Some(ClientMessage::Login { .. })
            ||| msg matches Some(ClientMessage::Chat { message }) && trimmed(message@).len() == 0
            ||| msg matches Some(ClientMessage::JoinRoom { room }) && trimmed(room@).len() == 0
            ||| !before.contains_key(id) && !(msg matches Some(ClientMessage::ListRooms))
        }),
    ensures
        after == before,
        r.record is None,
        r.deliveries@.len() == 0,
{
}

/// A request for the room list changes nothing and is answered to the asker
/// alone with every room somebody is in, each once, in ascending order.
pub proof fn lemma_room_list_answer<T>(
    before: Map<usize, Client<T>>,
    after: Map<usize, Client<T>>,
    id: usize,
    username: Seq<char>,
    r: Reaction,
)
    requires
        reaction_spec(before, after, id, username, Some(ClientMessage::ListRooms), r),
        before.contains_key(id),
    ensures
        after == before,
        r.deliveries@.len() == 1,
        r.deliveries@[0].recipients@ == seq![id],
        r.deliveries@[0].message matches ServerMessage::RoomList { rooms } && {
            &&& forall|i: int| 0 <= i < rooms@.len() ==> #[trigger] crate::registry::occupied_by(before, rooms@[i]@)
            &&& forall|k: usize| #[trigger]
                before.contains_key(k) ==> exists|i: int| 0 <= i < rooms@.len() && (#[trigger] rooms@[i])@
                    == before[k].room@
            &&& forall|i: int, j: int| 0 <= i < j < rooms@.len() ==> (#[trigger] rooms@[i])@ != (#[trigger] rooms@[j])@
        },
{
    if let ServerMessage::RoomList { rooms } = r.deliveries@[0].message {
        crate::registry::lemma_room_list_exact(before, rooms@);
    }
}

/// An arrival is refused exactly when somebody is signed in under a name
/// that differs only in the case of ASCII letters; otherwise the newcomer is
/// in the lobby and its arrival is announced to exactly the lobby, itself
/// included.
pub proof fn lemma_arrival<T>(
    before: Map<usize, Client<T>>,
    after: Map<usize, Client<T>>,
    id: usize,
    username: String,
    tx: T,
    announcement: Delivery,
)
    requires
        !name_taken(before, username@),
        added(before, after, id, username, tx),
        delivers_to_room(announcement, after, lobby()),
    ensures
        forall|k: usize| #[trigger]
            before.contains_key(k) ==> !crate::text::eq_ignore_ascii_case_seq(before[k].username@, username@),
        after.contains_key(id) && after[id].room@ == "lobby"@,
        announcement.recipients@.contains(id),
        forall|k: usize| #[trigger]
            announcement.recipients@.contains(k) <==> (after.contains_key(k) && after[k].room@ == "lobby"@),
{
    lemma_delivery_reaches_exactly_room(announcement, after, lobby());
}

/// Leaving the server: the connection is signed out, and the leave notice
/// goes to exactly those still in the room it was in (the lobby for a
/// connection that was not signed in), not to the leaver.
pub proof fn lemma_departure<T>(
    before: Map<usize, Client<T>>,
    after: Map<usize, Client<T>>,
    id: usize,
    d: Delivery,
)
    requires
        after == before.remove(id),
        delivers_to_room(d, after, room_at_exit(before, id)),
    ensures
        !after.contains_key(id),
        !d.recipients@.contains(id),
        before.contains_key(id) ==> forall|k: usize| #[trigger]
            d.recipients@.contains(k) <==> (k != id && before.contains_key(k) && before[k].room@
                == before[id].room@),
{
    lemma_delivery_reaches_exactly_room(d, after, room_at_exit(before, id));
}

} // verus!
