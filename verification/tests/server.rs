use roomchat::auth::{
    finish_login, finish_registration, is_valid_username, login_outcome, new_user_record,
    start_session, AuthOutcome, AuthStart, PasswordLookup, PendingLogin, PendingRegistration,
};
use roomchat::protocol::{ClientMessage, ServerMessage};
use roomchat::registry::{
    get_client_room, list_rooms, members_of_room, move_client_to_room, username_exists, Clients,
};
use roomchat::session::{
    broadcast_chat_to_room, broadcast_system_to_room, disconnect, handle_message,
    register_client, Admission, Delivery,
};

fn auth_error(text: &str) -> ServerMessage {
    ServerMessage::AuthError { message: text.to_string() }
}

fn rejected_with(start: AuthStart) -> ServerMessage {
    match start {
        AuthStart::Reject(m) => m,
        _ => panic!("expected a rejection"),
    }
}

fn sorted(d: &Delivery) -> Vec<usize> {
    let mut r = d.recipients.clone();
    r.sort();
    r
}

fn admitted(clients: &mut Clients<u32>, id: usize, name: &str) -> (Vec<ServerMessage>, Delivery) {
    match register_client(clients, id, name.to_string(), id as u32) {
        Admission::Admitted { replies, announcement } => (replies, announcement),
        Admission::Refused(m) => panic!("refused: {:?}", m),
    }
}

#[test]
fn usernames() {
    assert!(is_valid_username("ann"));
    assert!(is_valid_username("  ann  "));
    assert!(!is_valid_username("   "));
    assert!(!is_valid_username(""));
    assert!(is_valid_username("abcdefghijklmnopqrst"));
    assert!(!is_valid_username("abcdefghijklmnopqrstu"));
    // Ten two-byte letters take twenty bytes; eleven take twenty-two.
    assert!(is_valid_username("éééééééééé"));
    assert!(!is_valid_username("ééééééééééé"));
}

#[test]
fn first_message_that_is_not_json() {
    assert_eq!(
        rejected_with(start_session(None)),
        ServerMessage::Error { message: "Invalid protocol message".to_string() }
    );
}

#[test]
fn first_message_that_is_not_a_sign_in() {
    for m in [
        ClientMessage::Chat { message: "hi".to_string() },
        ClientMessage::JoinRoom { room: "x".to_string() },
        ClientMessage::LeaveRoom,
        ClientMessage::ListRooms,
    ] {
        assert_eq!(
            rejected_with(start_session(Some(m))),
            auth_error("First message must be register or login")
        );
    }
}

#[test]
fn registration_checks() {
    let bad_name = ClientMessage::Register { username: "   ".to_string(), password: "pw".to_string() };
    assert_eq!(rejected_with(start_session(Some(bad_name))), auth_error("Invalid username"));
    let no_password =
        ClientMessage::Register { username: "ann".to_string(), password: "  ".to_string() };
    assert_eq!(rejected_with(start_session(Some(no_password))), auth_error("Password cannot be empty"));
    let ok = ClientMessage::Register { username: " ann ".to_string(), password: " pw ".to_string() };
    match start_session(Some(ok)) {
        AuthStart::Register(p) => {
            assert_eq!(p.username, "ann");
            assert_eq!(p.password, "pw");
        },
        _ => panic!("expected a registration"),
    }
}

#[test]
fn login_checks() {
    let bad_name = ClientMessage::Login {
        username: "a very long user name here".to_string(),
        password: "pw".to_string(),
    };
    assert_eq!(rejected_with(start_session(Some(bad_name))), auth_error("Invalid username"));
    let empty_password = ClientMessage::Login { username: "ann".to_string(), password: "".to_string() };
    match start_session(Some(empty_password)) {
        AuthStart::Login(p) => {
            assert_eq!(p.username, "ann");
            assert_eq!(p.password, "");
        },
        _ => panic!("expected a sign-in"),
    }
}

#[test]
fn registration_outcomes() {
    let pending = PendingRegistration { username: "ann".to_string(), password: "pw".to_string() };
    match finish_registration(pending, true) {
        AuthOutcome::Authenticated(u) => assert_eq!(u, "ann"),
        other => panic!("unexpected {:?}", other),
    }
    let pending = PendingRegistration { username: "ann".to_string(), password: "pw".to_string() };
    match finish_registration(pending, false) {
        AuthOutcome::Rejected(m) => assert_eq!(m, auth_error("Username already exists")),
        other => panic!("unexpected {:?}", other),
    }
}

#[test]
fn login_outcomes() {
    let found = PasswordLookup::Found("$argon2id$...".to_string());
    match login_outcome("ann".to_string(), &found, true) {
        AuthOutcome::Authenticated(u) => assert_eq!(u, "ann"),
        other => panic!("unexpected {:?}", other),
    }
    match login_outcome("ann".to_string(), &found, false) {
        AuthOutcome::Rejected(m) => assert_eq!(m, auth_error("Invalid username or password")),
        other => panic!("unexpected {:?}", other),
    }
    match login_outcome("ann".to_string(), &PasswordLookup::Unknown, true) {
        AuthOutcome::Rejected(m) => assert_eq!(m, auth_error("Invalid username or password")),
        other => panic!("unexpected {:?}", other),
    }
    match login_outcome("ann".to_string(), &PasswordLookup::Failed, true) {
        AuthOutcome::Rejected(m) => assert_eq!(m, auth_error("Authentication failed")),
        other => panic!("unexpected {:?}", other),
    }
}

#[test]
fn registered_password_signs_in() {
    let pending = PendingRegistration { username: "ann".to_string(), password: "hunter42".to_string() };
    let record = new_user_record(&pending).expect("hashing works");
    assert_eq!(record.username, "ann");
    assert_ne!(record.password_hash, "hunter42");
    assert!(record.password_hash.starts_with("$argon2"));

    let good = PendingLogin { username: "ann".to_string(), password: "hunter42".to_string() };
    match finish_login(good, PasswordLookup::Found(record.password_hash.clone())) {
        AuthOutcome::Authenticated(u) => assert_eq!(u, "ann"),
        other => panic!("unexpected {:?}", other),
    }
    let bad = PendingLogin { username: "ann".to_string(), password: "hunter43".to_string() };
    match finish_login(bad, PasswordLookup::Found(record.password_hash.clone())) {
        AuthOutcome::Rejected(m) => assert_eq!(m, auth_error("Invalid username or password")),
        other => panic!("unexpected {:?}", other),
    }
}

#[test]
fn salts_differ_between_registrations() {
    let pending = PendingRegistration { username: "ann".to_string(), password: "pw".to_string() };
    let a = new_user_record(&pending).unwrap();
    let b = new_user_record(&pending).unwrap();
    assert_ne!(a.password_hash, b.password_hash);
}

#[test]
fn malformed_stored_hash_is_refused() {
    let login = PendingLogin { username: "ann".to_string(), password: "pw".to_string() };
    match finish_login(login, PasswordLookup::Found("not a hash".to_string())) {
        AuthOutcome::Rejected(m) => assert_eq!(m, auth_error("Invalid username or password")),
        other => panic!("unexpected {:?}", other),
    }
    let login = PendingLogin { username: "ann".to_string(), password: "pw".to_string() };
    match finish_login(login, PasswordLookup::Unknown) {
        AuthOutcome::Rejected(m) => assert_eq!(m, auth_error("Invalid username or password")),
        other => panic!("unexpected {:?}", other),
    }
    let login = PendingLogin { username: "ann".to_string(), password: "pw".to_string() };
    match finish_login(login, PasswordLookup::Failed) {
        AuthOutcome::Rejected(m) => assert_eq!(m, auth_error("Authentication failed")),
        other => panic!("unexpected {:?}", other),
    }
}

#[test]
fn arrival_replies_and_announcement() {
    let mut clients: Clients<u32> = Clients::new();
    let (replies, announcement) = admitted(&mut clients, 1, "ann");
    assert_eq!(
        replies,
        vec![
            ServerMessage::AuthOk,
            ServerMessage::Welcome { message: "Welcome ann".to_string() },
            ServerMessage::RoomJoined { room: "lobby".to_string() },
        ]
    );
    assert_eq!(announcement.recipients, vec![1]);
    assert_eq!(announcement.message, ServerMessage::System { message: "ann joined lobby".to_string() });
    let (_, announcement) = admitted(&mut clients, 2, "bob");
    assert_eq!(sorted(&announcement), vec![1, 2]);
    assert_eq!(clients.get(2).unwrap().tx, 2);
    assert_eq!(clients.get(2).unwrap().room, "lobby");
}

#[test]
fn second_session_with_same_name_is_refused() {
    let mut clients: Clients<u32> = Clients::new();
    admitted(&mut clients, 1, "Ann");
    match register_client(&mut clients, 2, "aNN".to_string(), 2) {
        Admission::Refused(m) => assert_eq!(m, auth_error("This user is already logged in")),
        Admission::Admitted { .. } => panic!("expected a refusal"),
    }
    assert!(clients.get(2).is_none());
    assert!(username_exists(&clients, "ANN"));
    assert!(!username_exists(&clients, "Anne"));
}

#[test]
fn registry_queries() {
    let mut clients: Clients<u32> = Clients::new();
    admitted(&mut clients, 1, "ann");
    admitted(&mut clients, 2, "bob");
    admitted(&mut clients, 3, "cy");
    assert_eq!(move_client_to_room(&mut clients, 2, "rust"), Some(("bob".to_string(), "lobby".to_string())));
    assert_eq!(move_client_to_room(&mut clients, 9, "rust"), None);
    assert_eq!(get_client_room(&clients, 2), Some("rust".to_string()));
    assert_eq!(get_client_room(&clients, 9), None);
    let mut lobby = members_of_room(&clients, "lobby");
    lobby.sort();
    assert_eq!(lobby, vec![1, 3]);
    assert_eq!(members_of_room(&clients, "nowhere"), Vec::<usize>::new());
    assert_eq!(list_rooms(&clients), vec!["lobby".to_string(), "rust".to_string()]);
    move_client_to_room(&mut clients, 3, "art");
    assert_eq!(list_rooms(&clients), vec!["art".to_string(), "lobby".to_string(), "rust".to_string()]);
}

#[test]
fn broadcasts() {
    let mut clients: Clients<u32> = Clients::new();
    admitted(&mut clients, 1, "ann");
    admitted(&mut clients, 2, "bob");
    move_client_to_room(&mut clients, 2, "rust");
    let d = broadcast_system_to_room(&clients, "rust", "hello");
    assert_eq!(d.recipients, vec![2]);
    assert_eq!(d.message, ServerMessage::System { message: "hello".to_string() });
    let d = broadcast_chat_to_room(&clients, "ann", "lobby", "hi");
    assert_eq!(d.recipients, vec![1]);
    assert_eq!(
        d.message,
        ServerMessage::Chat { username: "ann".to_string(), room: "lobby".to_string(), message: "hi".to_string() }
    );
}

#[test]
fn chat_goes_to_the_room_and_is_kept() {
    let mut clients: Clients<u32> = Clients::new();
    admitted(&mut clients, 1, "ann");
    admitted(&mut clients, 2, "bob");
    admitted(&mut clients, 3, "cy");
    move_client_to_room(&mut clients, 3, "rust");
    let r = handle_message(&mut clients, 1, "ann", Some(ClientMessage::Chat { message: "  hi all ".to_string() }));
    let record = r.record.expect("a chat line to keep");
    assert_eq!(record.username, "ann");
    assert_eq!(record.room, "lobby");
    assert_eq!(record.message, "hi all");
    assert_eq!(r.deliveries.len(), 1);
    assert_eq!(sorted(&r.deliveries[0]), vec![1, 2]);
    assert_eq!(
        r.deliveries[0].message,
        ServerMessage::Chat { username: "ann".to_string(), room: "lobby".to_string(), message: "hi all".to_string() }
    );
}

#[test]
fn ignored_messages() {
    let mut clients: Clients<u32> = Clients::new();
    admitted(&mut clients, 1, "ann");
    for m in [
        None,
        Some(ClientMessage::Chat { message: "   ".to_string() }),
        Some(ClientMessage::JoinRoom { room: " ".to_string() }),
        Some(ClientMessage::Login { username: "x".to_string(), password: "y".to_string() }),
        Some(ClientMessage::Register { username: "x".to_string(), password: "y".to_string() }),
    ] {
        let r = handle_message(&mut clients, 1, "ann", m);
        assert!(r.record.is_none());
        assert!(r.deliveries.is_empty());
    }
    let r = handle_message(&mut clients, 7, "ghost", Some(ClientMessage::Chat { message: "hi".to_string() }));
    assert!(r.record.is_none() && r.deliveries.is_empty());
    let r = handle_message(&mut clients, 7, "ghost", Some(ClientMessage::LeaveRoom));
    assert!(r.deliveries.is_empty());
    assert_eq!(get_client_room(&clients, 1), Some("lobby".to_string()));
}

#[test]
fn joining_and_leaving_rooms() {
    let mut clients: Clients<u32> = Clients::new();
    admitted(&mut clients, 1, "ann");
    admitted(&mut clients, 2, "bob");
    let r = handle_message(&mut clients, 1, "ann", Some(ClientMessage::JoinRoom { room: " rust ".to_string() }));
    assert!(r.record.is_none());
    assert_eq!(r.deliveries.len(), 3);
    assert_eq!(r.deliveries[0].recipients, vec![1]);
    assert_eq!(r.deliveries[0].message, ServerMessage::RoomJoined { room: "rust".to_string() });
    assert_eq!(r.deliveries[1].recipients, vec![2]);
    assert_eq!(r.deliveries[1].message, ServerMessage::System { message: "ann left lobby".to_string() });
    assert_eq!(r.deliveries[2].recipients, vec![1]);
    assert_eq!(r.deliveries[2].message, ServerMessage::System { message: "ann joined rust".to_string() });
    assert_eq!(get_client_room(&clients, 1), Some("rust".to_string()));

    // Joining the room one is in only confirms it.
    let r = handle_message(&mut clients, 1, "ann", Some(ClientMessage::JoinRoom { room: "rust".to_string() }));
    assert_eq!(r.deliveries.len(), 1);
    assert_eq!(r.deliveries[0].message, ServerMessage::RoomJoined { room: "rust".to_string() });

    let r = handle_message(&mut clients, 1, "ann", Some(ClientMessage::LeaveRoom));
    assert_eq!(r.deliveries.len(), 3);
    assert_eq!(r.deliveries[0].message, ServerMessage::RoomJoined { room: "lobby".to_string() });
    assert!(r.deliveries[1].recipients.is_empty());
    assert_eq!(r.deliveries[1].message, ServerMessage::System { message: "ann left rust".to_string() });
    assert_eq!(sorted(&r.deliveries[2]), vec![1, 2]);
    assert_eq!(r.deliveries[2].message, ServerMessage::System { message: "ann joined lobby".to_string() });

    let r = handle_message(&mut clients, 1, "ann", Some(ClientMessage::LeaveRoom));
    assert_eq!(r.deliveries.len(), 1);
}

#[test]
fn listing_rooms_answers_the_asker() {
    let mut clients: Clients<u32> = Clients::new();
    admitted(&mut clients, 1, "ann");
    admitted(&mut clients, 2, "bob");
    handle_message(&mut clients, 2, "bob", Some(ClientMessage::JoinRoom { room: "zed".to_string() }));
    handle_message(&mut clients, 1, "ann", Some(ClientMessage::JoinRoom { room: "abc".to_string() }));
    let r = handle_message(&mut clients, 1, "ann", Some(ClientMessage::ListRooms));
    assert_eq!(r.deliveries.len(), 1);
    assert_eq!(r.deliveries[0].recipients, vec![1]);
    assert_eq!(
        r.deliveries[0].message,
        ServerMessage::RoomList { rooms: vec!["abc".to_string(), "zed".to_string()] }
    );
    let r = handle_message(&mut clients, 5, "nobody", Some(ClientMessage::ListRooms));
    assert!(r.deliveries[0].recipients.is_empty());
}

#[test]
fn leaving_the_server() {
    let mut clients: Clients<u32> = Clients::new();
    admitted(&mut clients, 1, "ann");
    admitted(&mut clients, 2, "bob");
    handle_message(&mut clients, 1, "ann", Some(ClientMessage::JoinRoom { room: "rust".to_string() }));
    handle_message(&mut clients, 2, "bob", Some(ClientMessage::JoinRoom { room: "rust".to_string() }));
    let d = disconnect(&mut clients, 1, "ann");
    assert_eq!(d.recipients, vec![2]);
    assert_eq!(d.message, ServerMessage::System { message: "ann left rust".to_string() });
    assert!(clients.get(1).is_none());
    let d = broadcast_system_to_room(&clients, "rust", "x");
    assert_eq!(d.recipients, vec![2]);
    // A connection that never signed in counts as leaving the lobby.
    let d = disconnect(&mut clients, 9, "ghost");
    assert!(d.recipients.is_empty());
    assert_eq!(d.message, ServerMessage::System { message: "ghost left lobby".to_string() });
}

#[test]
fn typed_join_lands_in_the_typed_room() {
    let mut clients: Clients<u32> = Clients::new();
    admitted(&mut clients, 1, "ann");
    let sent = roomchat::client::parse_command("/join   rust club").expect("a request");
    assert_eq!(sent, ClientMessage::JoinRoom { room: "rust club".to_string() });
    handle_message(&mut clients, 1, "ann", Some(sent));
    assert_eq!(get_client_room(&clients, 1), Some("rust club".to_string()));
}

#[test]
fn hashing_succeeds_for_ordinary_passwords() {
    for pw in ["", "x", "a much longer pass phrase with spaces", "pässwörd日本"] {
        let pending = PendingRegistration { username: "ann".to_string(), password: pw.to_string() };
        let record = new_user_record(&pending).expect("hashing succeeds");
        let login = PendingLogin { username: "ann".to_string(), password: pw.to_string() };
        match finish_login(login, PasswordLookup::Found(record.password_hash)) {
            AuthOutcome::Authenticated(u) => assert_eq!(u, "ann"),
            other => panic!("unexpected {:?}", other),
        }
    }
}
