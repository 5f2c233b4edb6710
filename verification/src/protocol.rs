use vstd::prelude::*;

verus! {

/// A request sent by a client to the server, one JSON object per line.
#[derive(Debug, PartialEq, Eq)]
pub enum ClientMessage {
    /// Create an account and sign in with it.
    Register { username: String, password: String },
    /// Sign in to an existing account.
    Login { username: String, password: String },
    /// Say something in the current room.
    Chat { message: String },
    /// Move to another room, creating it if nobody is there yet.
    JoinRoom { room: String },
    /// Go back to the default room.
    LeaveRoom,
    /// Ask for the rooms that have somebody in them.
    ListRooms,
}

/// A notice sent by the server to a client, one JSON object per line.
#[derive(Debug, PartialEq, Eq)]
pub enum ServerMessage {
    /// The sign-in succeeded.
    AuthOk,
    /// The sign-in was refused; the connection is then closed.
    AuthError { message: String },
    /// Greeting after a successful sign-in.
    Welcome { message: String },
    /// The request could not be understood.
    Error { message: String },
    /// A notice about the room, such as somebody joining or leaving.
    System { message: String },
    /// A chat line said in a room.
    Chat { username: String, room: String, message: String },
    /// The client is now in `room`.
    RoomJoined { room: String },
    /// The rooms that have somebody in them.
    RoomList { rooms: Vec<String> },
}

} // verus!
