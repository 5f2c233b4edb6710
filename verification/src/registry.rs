use std::collections::HashMap;
use vstd::prelude::*;
use vstd::std_specs::hash::spec_hash_map_iter;
use vstd::std_specs::iter::IteratorSpec;
use crate::text::{
    eq_ignore_ascii_case, eq_ignore_ascii_case_seq, insert_sorted, same_text, strictly_ascending, texts,
};

verus! {

broadcast use vstd::std_specs::hash::group_hash_axioms;

/// A signed-in connection as the server keeps it: who it is, which room it
/// is in, and the handle through which notices reach it.
pub struct Client<T> {
    pub username: String,
    pub room: String,
    pub tx: T,
}

/// The signed-in connections, by connection number.
pub struct Clients<T> {
    map: HashMap<usize, Client<T>>,
}

impl<T> View for Clients<T> {
    type V = Map<usize, Client<T>>;

    /// The connections, by connection number.
    closed spec fn view(&self) -> Map<usize, Client<T>> {
        self.map@
    }
}

impl<T> Clients<T> {

    /// No connection yet.
    pub fn new() -> (r: Self)
        ensures
            r.view() == Map::<usize, Client<T>>::empty(),
    {
        Clients { map: HashMap::new() }
    }

    /// The connection numbered `id`, if it is signed in.
    pub fn get(&self, id: usize) -> (r: Option<&Client<T>>)
        ensures
            r is Some <==> self.view().contains_key(id),
            r matches Some(c) ==> *c == self.view()[id],
    {
        self.map.get(&id)
    }

    /// Signs in connection `id` as `client`, replacing any entry it had.
    pub(crate) fn insert(&mut self, id: usize, client: Client<T>)
        ensures
            final(self).view() == old(self).view().insert(id, client),
    {
        self.map.insert(id, client);
    }

    /// Signs out connection `id`, handing back its entry.
    pub(crate) fn remove(&mut self, id: usize) -> (r: Option<Client<T>>)
        ensures
            final(self).view() == old(self).view().remove(id),
            r is Some <==> old(self).view().contains_key(id),
            r matches Some(c) ==> c == old(self).view()[id],
    {
        self.map.remove(&id)
    }

    /// Number, user name and room of every connection, each once, in no
    /// particular order.
    fn listing(&self) -> (v: Vec<(usize, String, String)>)
        ensures
            forall|i: int|
                0 <= i < v.len() ==> {
                    let (id, u, r) = #[trigger] v@[i];
                    &&& self.view().contains_key(id)
                    &&& u@ == self.view()[id].username@
                    &&& r@ == self.view()[id].room@
                },
            forall|k: usize|
                #[trigger] self.view().contains_key(k) ==> exists|i: int|
                    0 <= i < v.len() && (#[trigger] v@[i]).0 == k,
    {
        let ghost m = self.map@;
        let ghost items = spec_hash_map_iter(&self.map).remaining();
        let mut v: Vec<(usize, String, String)> = Vec::new();
        for (id, client) in it: self.map.iter()
            invariant
                m == self.map@,
                it.seq() == items,
                v.len() == it.index(),
                forall|i: int|
                    0 <= i < v.len() ==> {
                        let (id, u, r) = #[trigger] v@[i];
                        &&& id == *items[i].0
                        &&& m.contains_key(id)
                        &&& u@ == m[id].username@
                        &&& r@ == m[id].room@
                    },
        {
            let ghost idx = it.index();
            assert(m.contains_key(*items[idx].0));
            assert(*id == *items[idx].0 && *client == *items[idx].1);
            v.push((*id, client.username.clone(), client.room.clone()));
        }
        proof {
            assert forall|k: usize| #[trigger] m.contains_key(k) implies exists|i: int|
                0 <= i < v.len() && (#[trigger] v@[i]).0 == k by {
                assert(items.contains((&k, &m[k])));
                let j = choose|j: int| 0 <= j < items.len() && items[j] == (&k, &m[k]);
                assert(v@[j].0 == k);
            }
        }
        v
    }
}

/// Some connection is signed in under a name equal to `username` up to the
/// case of ASCII letters.
pub open spec fn name_taken<T>(m: Map<usize, Client<T>>, username: Seq<char>) -> bool {
    exists|id: usize| #[trigger]
        m.contains_key(id) && eq_ignore_ascii_case_seq(m[id].username@, username)
}

/// The rooms that have somebody in them.
pub open spec fn occupied_rooms<T>(m: Map<usize, Client<T>>) -> Set<Seq<char>> {
    Set::new(|room: Seq<char>| exists|id: usize| #[trigger] m.contains_key(id) && m[id].room@ == room)
}

/// No two connections are signed in under names that differ only in the
/// case of ASCII letters.
pub open spec fn names_distinct<T>(m: Map<usize, Client<T>>) -> bool {
    forall|a: usize, b: usize|
        #[trigger] m.contains_key(a) && #[trigger] m.contains_key(b) && a != b
            ==> !eq_ignore_ascii_case_seq(m[a].username@, m[b].username@)
}

/// Whether somebody is signed in under `username`, ignoring the case of
/// ASCII letters.
pub fn username_exists<T>(clients: &Clients<T>, username: &str) -> (r: bool)
    ensures
        r == name_taken(clients.view(), username@),
{
    let entries = clients.listing();
    let mut i: usize = 0;
    while i < entries.len()
        invariant
            i <= entries.len(),
            forall|k: int| 0 <= k < i ==> !eq_ignore_ascii_case_seq(#[trigger] entries@[k].1@, username@),
            forall|k: int|
                0 <= k < entries.len() ==> {
                    let (id, u, r) = #[trigger] entries@[k];
                    &&& clients.view().contains_key(id)
                    &&& u@ == clients.view()[id].username@
                },
            forall|k: usize|
                #[trigger] clients.view().contains_key(k) ==> exists|j: int|
                    0 <= j < entries.len() && (#[trigger] entries@[j]).0 == k,
        decreases entries.len() - i,
    {
        if eq_ignore_ascii_case(entries[i].1.as_str(), username) {
            assert(clients.view().contains_key(entries@[i as int].0));
            return true;
        }
        i = i + 1;
    }
    proof {
        if name_taken(clients.view(), username@) {
            let id = choose|id: usize| #[trigger]
                clients.view().contains_key(id) && eq_ignore_ascii_case_seq(
                    clients.view()[id].username@,
                    username@,
                );
            let j = choose|j: int| 0 <= j < entries.len() && (#[trigger] entries@[j]).0 == id;
            assert(!eq_ignore_ascii_case_seq(entries@[j].1@, username@));
        }
    }
    false
}

/// The room of connection `client_id`, if it is signed in.
pub fn get_client_room<T>(clients: &Clients<T>, client_id: usize) -> (r: Option<String>)
    ensures
        r is Some <==> clients.view().contains_key(client_id),
        r matches Some(room) ==> room@ == clients.view()[client_id].room@,
{
    match clients.get(client_id) {
        Some(c) => Some(c.room.clone()),
        None => None,
    }
}

/// Moves connection `client_id` to `new_room`, handing back its user name
/// and the room it left; nothing changes when it is not signed in.
pub fn move_client_to_room<T>(clients: &mut Clients<T>, client_id: usize, new_room: &str) -> (r:
    Option<(String, String)>)
    ensures
        r is Some <==> old(clients).view().contains_key(client_id),
        !old(clients).view().contains_key(client_id) ==> final(clients).view() == old(clients).view(),
        r matches Some((username, old_room)) ==> {
            let before = old(clients).view()[client_id];
            let after = final(clients).view()[client_id];
            &&& username@ == before.username@
            &&& old_room@ == before.room@
            &&& final(clients).view().dom() == old(clients).view().dom()
            &&& after.username == before.username
            &&& after.tx == before.tx
            &&& after.room@ == new_room@
            &&& forall|id: usize|
                id != client_id ==> #[trigger] final(clients).view().get(id) == old(clients).view().get(id)
        },
{
    match clients.remove(client_id) {
        None => None,
        Some(c) => {
            let username = c.username.clone();
            let old_room = c.room;
            let moved = Client { username: c.username, room: new_room.to_string(), tx: c.tx };
            clients.insert(client_id, moved);
            proof {
                assert(final(clients).view().dom() =~= old(clients).view().dom());
            }
            Some((username, old_room))
        },
    }
}

/// The rooms that have somebody in them, each once, in ascending order.
pub fn list_rooms<T>(clients: &Clients<T>) -> (r: Vec<String>)
    ensures
        strictly_ascending(texts(r@)),
        texts(r@).to_set() == occupied_rooms(clients.view()),
{
    let entries = clients.listing();
    let mut rooms: Vec<String> = Vec::new();
    let mut i: usize = 0;
    assert(texts(rooms@).to_set() =~= Set::<Seq<char>>::empty());
    while i < entries.len()
        invariant
            i <= entries.len(),
            strictly_ascending(texts(rooms@)),
            texts(rooms@).to_set() == Set::new(
                |room: Seq<char>| exists|k: int| 0 <= k < i && (#[trigger] entries@[k]).2@ == room,
            ),
            forall|k: int|
                0 <= k < entries.len() ==> {
                    let (id, u, r) = #[trigger] entries@[k];
                    &&& clients.view().contains_key(id)
                    &&& r@ == clients.view()[id].room@
                },
            forall|k: usize|
                #[trigger] clients.view().contains_key(k) ==> exists|j: int|
                    0 <= j < entries.len() && (#[trigger] entries@[j]).0 == k,
        decreases entries.len() - i,
    {
        let ghost before = texts(rooms@).to_set();
        insert_sorted(&mut rooms, entries[i].2.clone());
        assert(texts(rooms@).to_set() =~= Set::new(
            |room: Seq<char>| exists|k: int| 0 <= k < i + 1 && (#[trigger] entries@[k]).2@ == room,
        )) by {
            assert forall|room: Seq<char>| #[trigger] before.insert(entries@[i as int].2@).contains(room)
                <==> exists|k: int| 0 <= k < i + 1 && (#[trigger] entries@[k]).2@ == room by {
                if room == entries@[i as int].2@ {
                    assert(entries@[i as int].2@ == room);
                }
            }
        }
        i = i + 1;
    }
    proof {
        let m = clients.view();
        assert forall|room: Seq<char>| #[trigger] texts(rooms@).to_set().contains(room)
            <==> occupied_rooms(m).contains(room) by {
            if occupied_rooms(m).contains(room) {
                let id = choose|id: usize| #[trigger] m.contains_key(id) && m[id].room@ == room;
                let j = choose|j: int| 0 <= j < entries.len() && (#[trigger] entries@[j]).0 == id;
                assert(entries@[j].2@ == room);
            }
            if texts(rooms@).to_set().contains(room) {
                let k = choose|k: int| 0 <= k < entries.len() && (#[trigger] entries@[k]).2@ == room;
                assert(m.contains_key(entries@[k].0));
            }
        }
        assert(texts(rooms@).to_set() =~= occupied_rooms(m));
    }
    rooms
}

/// The connections that are in `room`.
pub open spec fn room_members<T>(m: Map<usize, Client<T>>, room: Seq<char>) -> Set<usize> {
    Set::new(|id: usize| m.contains_key(id) && m[id].room@ == room)
}

/// The numbers of the connections in `room`, each once.
pub fn members_of_room<T>(clients: &Clients<T>, room: &str) -> (r: Vec<usize>)
    ensures
        r@.no_duplicates(),
        r@.to_set() == room_members(clients.view(), room@),
{
    let ghost m = clients.map@;
    let ghost items = spec_hash_map_iter(&clients.map).remaining();
    let ghost mut from: Seq<int> = Seq::empty();
    let mut r: Vec<usize> = Vec::new();
    for (id, client) in it: clients.map.iter()
        invariant
            m == clients.map@,
            it.seq() == items,
            items.no_duplicates(),
            r@.no_duplicates(),
            from.len() == r.len(),
            forall|i: int| 0 <= i < r.len() ==> #[trigger] room_members(m, room@).contains(r@[i]),
            forall|i: int|
                0 <= i < r.len() ==> 0 <= #[trigger] from[i] < it.index() && *items[from[i]].0
                    == r@[i],
            forall|j: int|
                0 <= j < it.index() && m[*(#[trigger] items[j]).0].room@ == room@ ==> r@.contains(
                    *items[j].0,
                ),
    {
        let ghost idx = it.index();
        let ghost old_r = r@;
        assert(m.contains_key(*items[idx].0));
        assert(*id == *items[idx].0 && *client == *items[idx].1);
        if same_text(client.room.as_str(), room) {
            proof {
                if r@.contains(*id) {
                    let i = choose|i: int| 0 <= i < r.len() && r@[i] == *id;
                    let j = from[i];
                    assert(m.contains_key(*items[j].0));
                    assert(items[j] == items[idx]);
                }
            }
            r.push(*id);
            proof {
                from = from.push(idx);
            }
            assert(r@[r.len() - 1] == *items[idx].0);
            assert(r@.contains(*items[idx].0));
            assert forall|x: usize| old_r.contains(x) implies r@.contains(x) by {
                let i = choose|i: int| 0 <= i < old_r.len() && old_r[i] == x;
                assert(r@[i] == x);
            }
        }
    }
    proof {
        assert forall|k: usize| room_members(m, room@).contains(k) implies r@.contains(k) by {
            assert(items.contains((&k, &m[k])));
        }
        assert(r@.to_set() =~= room_members(m, room@));
    }
    r
}

/// The connections chosen for a room are exactly those whose room is that
/// very text: a connection in a room whose name differs in any way, case
/// included, is not among them.
pub proof fn lemma_room_members_exact<T>(m: Map<usize, Client<T>>, room: Seq<char>, chosen: Seq<usize>)
    requires
        chosen.to_set() == room_members(m, room),
    ensures
        forall|k: usize| #[trigger]
            chosen.contains(k) <==> (m.contains_key(k) && m[k].room@ == room),
{
    assert forall|k: usize| #[trigger] chosen.contains(k) <==> (m.contains_key(k) && m[k].room@ == room) by {
        assert(chosen.to_set().contains(k) == chosen.contains(k));
    }
}

/// Somebody is in the room named `room`: some signed-in connection's room
/// is that very text.
pub open spec fn occupied_by<T>(m: Map<usize, Client<T>>, room: Seq<char>) -> bool {
    exists|id: usize| #![trigger m.contains_key(id)] m.contains_key(id) && m[id].room@ == room
}

proof fn lemma_listed_room_occupied<T>(m: Map<usize, Client<T>>, rooms: Seq<String>, i: int)
    requires
        texts(rooms).to_set() == occupied_rooms(m),
        0 <= i < rooms.len(),
    ensures
        occupied_by(m, rooms[i]@),
{
    let t = texts(rooms);
    assert(t[i] == rooms[i]@);
    assert(t.to_set().contains(t[i]));
    assert(occupied_rooms(m).contains(t[i]));
    let id = choose|id: usize| #[trigger] m.contains_key(id) && m[id].room@ == t[i];
    assert(m.contains_key(id) && m[id].room@ == rooms[i]@);
}

/// The list of rooms names each room somebody is in, once, and nothing else.
pub proof fn lemma_room_list_exact<T>(m: Map<usize, Client<T>>, rooms: Seq<String>)
    requires
        strictly_ascending(texts(rooms)),
        texts(rooms).to_set() == occupied_rooms(m),
    ensures
        forall|i: int|
            0 <= i < rooms.len() ==> #[trigger] occupied_by(m, rooms[i]@),
        forall|id: usize| #[trigger]
            m.contains_key(id) ==> exists|i: int| 0 <= i < rooms.len() && (#[trigger] rooms[i])@ == m[id].room@,
        forall|i: int, j: int| 0 <= i < j < rooms.len() ==> (#[trigger] rooms[i])@ != (#[trigger] rooms[j])@,
{
    let t = texts(rooms);
    assert forall|i: int| 0 <= i < rooms.len() implies #[trigger] occupied_by(m, rooms[i]@) by {
        lemma_listed_room_occupied(m, rooms, i);
    }
    assert forall|id: usize| #[trigger] m.contains_key(id) implies exists|i: int|
        0 <= i < rooms.len() && (#[trigger] rooms[i])@ == m[id].room@ by {
        assert(occupied_rooms(m).contains(m[id].room@));
        let i = choose|i: int| 0 <= i < t.len() && t[i] == m[id].room@;
        assert(rooms[i]@ == t[i]);
    }
    assert forall|i: int, j: int| 0 <= i < j < rooms.len() implies (#[trigger] rooms[i])@ != (
    #[trigger] rooms[j])@ by {
        assert(t[i] == rooms[i]@ && t[j] == rooms[j]@);
        assert(crate::text::seq_less(t[i], t[j]));
        crate::text::lemma_seq_less_irreflexive(t[i]);
    }
}

} // verus!
