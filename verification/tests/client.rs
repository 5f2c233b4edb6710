use roomchat::client::{
    auth_mode_from, auth_reply, chat_rows, display_line, handle_input, parse_auth_mode, parse_command,
    visible_range, App, AuthMode, AuthReply, Key, KeyOutcome, MAX_MESSAGES,
};
use roomchat::protocol::{ClientMessage, ServerMessage};

fn app_with(lines: usize) -> App {
    let mut app = App::new("ann".to_string());
    for i in 0..lines {
        app.push_message(format!("line {i}"));
    }
    app
}

#[test]
fn new_app_starts_in_lobby() {
    let app = App::new("ann".to_string());
    assert!(app.messages.is_empty());
    assert_eq!(app.input, "");
    assert_eq!(app.username, "ann");
    assert_eq!(app.room, "lobby");
    assert_eq!(app.scroll, 0);
}

#[test]
fn push_message_scrolls_to_bottom() {
    let mut app = App::new("ann".to_string());
    app.push_message("hi".to_string());
    assert_eq!(app.messages, vec!["hi".to_string()]);
    assert_eq!(app.scroll, 1);
}

#[test]
fn push_message_keeps_the_last_two_hundred() {
    let app = app_with(205);
    assert_eq!(MAX_MESSAGES, 200);
    assert_eq!(app.messages.len(), 200);
    assert_eq!(app.messages[0], "line 5");
    assert_eq!(app.messages[199], "line 204");
    assert_eq!(app.scroll, 200);
}

#[test]
fn push_message_trims_an_oversized_history() {
    let mut app = App::new("ann".to_string());
    app.messages = (0..250).map(|i| i.to_string()).collect();
    app.push_message("new".to_string());
    assert_eq!(app.messages.len(), 200);
    assert_eq!(app.messages[0], "51");
    assert_eq!(app.messages[199], "new");
}

#[test]
fn scrolling() {
    let mut app = App::new("ann".to_string());
    app.scroll_up();
    assert_eq!(app.scroll, 0);
    app.scroll_down();
    app.scroll_down();
    assert_eq!(app.scroll, 2);
    app.scroll_up();
    assert_eq!(app.scroll, 1);
    let mut app = app_with(3);
    app.scroll = 0;
    app.scroll_to_bottom();
    assert_eq!(app.scroll, 3);
}

#[test]
fn scroll_down_then_up_returns() {
    let mut app = app_with(4);
    let before = app.scroll;
    app.scroll_down();
    app.scroll_up();
    assert_eq!(app.scroll, before);
}

#[test]
fn commands_are_parsed() {
    assert_eq!(parse_command("/leave"), Some(ClientMessage::LeaveRoom));
    assert_eq!(parse_command("/rooms"), Some(ClientMessage::ListRooms));
    assert_eq!(
        parse_command("/join  rust  club"),
        Some(ClientMessage::JoinRoom { room: "rust  club".to_string() })
    );
    assert_eq!(parse_command("/join    "), None);
    assert_eq!(
        parse_command("/joinx"),
        Some(ClientMessage::Chat { message: "/joinx".to_string() })
    );
    assert_eq!(
        parse_command("hello there"),
        Some(ClientMessage::Chat { message: "hello there".to_string() })
    );
}

#[test]
fn handle_input_sends_and_clears() {
    let mut app = App::new("ann".to_string());
    app.input = "  hello  ".to_string();
    assert_eq!(handle_input(&mut app), Some(ClientMessage::Chat { message: "hello".to_string() }));
    assert_eq!(app.input, "");

    // Trimming takes the space after "/join" too, so this is a chat line.
    app.input = " /join   ".to_string();
    assert_eq!(handle_input(&mut app), Some(ClientMessage::Chat { message: "/join".to_string() }));
    assert_eq!(app.input, "");

    app.input = " \t ".to_string();
    assert_eq!(handle_input(&mut app), None);
    assert_eq!(app.input, " \t ");

    app.input = "/rooms ".to_string();
    assert_eq!(handle_input(&mut app), Some(ClientMessage::ListRooms));
}

#[test]
fn display_lines() {
    assert_eq!(display_line(&ServerMessage::AuthOk), "[auth] Authentication successful");
    assert_eq!(
        display_line(&ServerMessage::AuthError { message: "no".to_string() }),
        "[auth error] no"
    );
    assert_eq!(
        display_line(&ServerMessage::Welcome { message: "Welcome ann".to_string() }),
        "[welcome] Welcome ann"
    );
    assert_eq!(
        display_line(&ServerMessage::System { message: "bob joined lobby".to_string() }),
        "[system] bob joined lobby"
    );
    assert_eq!(
        display_line(&ServerMessage::Chat {
            username: "bob".to_string(),
            room: "rust".to_string(),
            message: "hi".to_string(),
        }),
        "[rust] bob: hi"
    );
    assert_eq!(
        display_line(&ServerMessage::RoomJoined { room: "rust".to_string() }),
        "[room] Joined rust"
    );
    assert_eq!(
        display_line(&ServerMessage::RoomList {
            rooms: vec!["a".to_string(), "lobby".to_string()],
        }),
        "[rooms] a, lobby"
    );
    assert_eq!(display_line(&ServerMessage::RoomList { rooms: vec![] }), "[rooms] ");
    assert_eq!(display_line(&ServerMessage::Error { message: "bad".to_string() }), "[error] bad");
}

#[test]
fn show_updates_room_on_room_joined() {
    let mut app = App::new("ann".to_string());
    app.show(ServerMessage::RoomJoined { room: "rust".to_string() });
    assert_eq!(app.room, "rust");
    assert_eq!(app.messages, vec!["[room] Joined rust".to_string()]);
    app.show(ServerMessage::System { message: "x".to_string() });
    assert_eq!(app.room, "rust");
    assert_eq!(app.messages.len(), 2);
    assert_eq!(app.scroll, 2);
}

#[test]
fn visible_window() {
    assert_eq!(chat_rows(12), 10);
    assert_eq!(chat_rows(1), 0);
    assert_eq!(visible_range(50, 50, 10), (0, 10));
    assert_eq!(visible_range(50, 5, 10), (40, 50));
    assert_eq!(visible_range(50, 100, 10), (0, 0));
    assert_eq!(visible_range(3, 3, 10), (0, 3));
    let mut app = app_with(3);
    assert_eq!(app.visible_messages(10), "line 0\nline 1\nline 2");
    app.scroll = 100;
    assert_eq!(app.visible_messages(10), "");
    assert_eq!(app.visible_messages(0), "");
}

#[test]
fn status_and_cursor() {
    let mut app = App::new("ann".to_string());
    assert_eq!(
        app.status_line(),
        "User: ann | Room: lobby | Commands: /join <room>  /leave  /rooms | Esc to quit"
    );
    app.input = "héllo".to_string();
    assert_eq!(app.cursor_position(3, 7), (10, 8));
}

#[test]
fn keys() {
    let mut app = App::new("ann".to_string());
    assert!(matches!(app.handle_key(Key::Char('h')), KeyOutcome::Continue));
    assert!(matches!(app.handle_key(Key::Char('i')), KeyOutcome::Continue));
    assert_eq!(app.input, "hi");
    assert!(matches!(app.handle_key(Key::Backspace), KeyOutcome::Continue));
    assert_eq!(app.input, "h");
    app.handle_key(Key::Backspace);
    app.handle_key(Key::Backspace);
    assert_eq!(app.input, "");
    app.handle_key(Key::Down);
    assert_eq!(app.scroll, 1);
    app.handle_key(Key::Up);
    assert_eq!(app.scroll, 0);
    assert!(matches!(app.handle_key(Key::Enter), KeyOutcome::Continue));
    app.input = "/leave".to_string();
    match app.handle_key(Key::Enter) {
        KeyOutcome::Send(m) => assert_eq!(m, ClientMessage::LeaveRoom),
        _ => panic!("expected a request"),
    }
    assert_eq!(app.input, "");
    assert!(matches!(app.handle_key(Key::Other), KeyOutcome::Continue));
    assert!(matches!(app.handle_key(Key::Esc), KeyOutcome::Quit));
}

#[test]
fn auth_modes() {
    assert_eq!(auth_mode_from("register"), Some(AuthMode::Register));
    assert_eq!(auth_mode_from("login"), Some(AuthMode::Login));
    assert_eq!(auth_mode_from("Login"), None);
    assert_eq!(parse_auth_mode("  REGISTER \n"), Some(AuthMode::Register));
    assert_eq!(parse_auth_mode("LogIn"), Some(AuthMode::Login));
    assert_eq!(parse_auth_mode("sign in"), None);
    assert_eq!(
        AuthMode::Login.request("ann".to_string(), "pw".to_string()),
        ClientMessage::Login { username: "ann".to_string(), password: "pw".to_string() }
    );
    assert_eq!(
        AuthMode::Register.request("ann".to_string(), "pw".to_string()),
        ClientMessage::Register { username: "ann".to_string(), password: "pw".to_string() }
    );
}

#[test]
fn auth_replies() {
    assert!(matches!(auth_reply(ServerMessage::AuthOk), AuthReply::Accepted));
    match auth_reply(ServerMessage::AuthError { message: "Invalid username".to_string() }) {
        AuthReply::Refused(m) => assert_eq!(m, "Invalid username"),
        other => panic!("unexpected {:?}", other),
    }
    match auth_reply(ServerMessage::Welcome { message: "hi".to_string() }) {
        AuthReply::Unexpected(m) => {
            assert_eq!(m, ServerMessage::Welcome { message: "hi".to_string() })
        },
        other => panic!("unexpected {:?}", other),
    }
}
