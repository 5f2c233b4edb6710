use vstd::prelude::*;
use vstd::utf8::encode_utf8;

use crate::protocol::{ClientMessage, ServerMessage};
use crate::text::{
    concatenate, join, join_range, same_text, seq_join, strip_prefix, texts, trim, trimmed,
};

verus! {

/// How many lines the chat view keeps.
pub const MAX_MESSAGES: usize = 200;

/// The state of the chat screen.
pub struct App {
    /// The lines shown in the chat view, oldest first.
    pub messages: Vec<String>,
    /// The line being typed.
    pub input: String,
    pub username: String,
    /// The room the server last said this client is in.
    pub room: String,
    /// How far the chat view is scrolled.
    pub scroll: usize,
}

/// The last `n` lines of `s`, or all of them when there are fewer.
pub open spec fn keep_last<A>(s: Seq<A>, n: nat) -> Seq<A> {
    if s.len() > n {
        s.subrange(s.len() - n, s.len() as int)
    } else {
        s
    }
}

/// Appends `c` to `s` with `String::push`, which the standard library
/// documents as appending the character to the end of the string.
#[verifier::external_body]
fn push_char(s: &mut String, c: char)
    ensures
        final(s)@ == old(s)@.push(c),
{
    s.push(c);
}

/// Removes the last character of `s` with `String::pop`, which the standard
/// library documents as removing and returning the last character, and
/// returning `None` when the string is empty.
#[verifier::external_body]
fn pop_char(s: &mut String) -> (r: Option<char>)
    ensures
        old(s)@.len() == 0 ==> r is None && final(s)@ == old(s)@,
        old(s)@.len() > 0 ==> r == Some(old(s)@.last()) && final(s)@ == old(s)@.drop_last(),
{
    s.pop()
}

/// The scroll position one line up, stopping at the top.
pub open spec fn scrolled_up(scroll: usize) -> usize {
    if scroll > 0 {
        (scroll - 1) as usize
    } else {
        0
    }
}

/// Scrolling down one line and back up returns to where the view was.
pub proof fn lemma_scroll_down_then_up(scroll: usize)
    requires
        scroll < usize::MAX,
    ensures
        scrolled_up((scroll + 1) as usize) == scroll,
{
}

impl App {
    /// A fresh screen for `username`, in the lobby.
    pub fn new(username: String) -> (app: App)
        ensures
            app.messages@ == Seq::<String>::empty(),
            app.input@ == Seq::<char>::empty(),
            app.username == username,
            app.room@ == "lobby"@,
            app.scroll == 0,
    {
        App {
            messages: Vec::new(),
            input: String::new(),
            username,
            room: "lobby".to_string(),
            scroll: 0,
        }
    }

    /// Adds a line at the bottom of the chat view, drops the oldest lines
    /// beyond `MAX_MESSAGES`, and scrolls to the bottom.
    pub fn push_message(&mut self, message: String)
        requires
            old(self).messages.len() < usize::MAX,
        ensures
            final(self).messages@ == keep_last(old(self).messages@.push(message), MAX_MESSAGES as nat),
            final(self).messages.len() <= MAX_MESSAGES,
            final(self).messages@.last() == message,
            final(self).scroll == final(self).messages.len(),
            final(self).input == old(self).input,
            final(self).username == old(self).username,
            final(self).room == old(self).room,
    {
        self.messages.push(message);
        if self.messages.len() > MAX_MESSAGES {
            let overflow = self.messages.len() - MAX_MESSAGES;
            let kept = self.messages.split_off(overflow);
            self.messages = kept;
        }
        self.scroll_to_bottom();
    }

    /// Scrolls one line up, stopping at the top.
    pub fn scroll_up(&mut self)
        ensures
            final(self).scroll == scrolled_up(old(self).scroll),
            final(self).messages == old(self).messages,
            final(self).input == old(self).input,
            final(self).username == old(self).username,
            final(self).room == old(self).room,
    {
        if self.scroll > 0 {
            self.scroll -= 1;
        }
    }

    /// Scrolls one line down.
    pub fn scroll_down(&mut self)
        requires
            old(self).scroll < usize::MAX,
        ensures
            final(self).scroll == old(self).scroll + 1,
            final(self).messages == old(self).messages,
            final(self).input == old(self).input,
            final(self).username == old(self).username,
            final(self).room == old(self).room,
    {
        self.scroll += 1;
    }

    /// Scrolls to the bottom of the chat view.
    pub fn scroll_to_bottom(&mut self)
        ensures
            final(self).scroll == final(self).messages.len(),
            final(self).messages == old(self).messages,
            final(self).input == old(self).input,
            final(self).username == old(self).username,
            final(self).room == old(self).room,
    {
        self.scroll = self.messages.len();
    }
}


/// The request that the typed line `text` (trimmed already, when it comes
/// from `handle_input`) stands for: `/leave`, `/rooms`, `/join <room>` or a chat line; `None`
/// for `/join` without a room.
pub open spec fn command_spec(text: Seq<char>, r: Option<ClientMessage>) -> bool {
    if text == "/leave"@ {
        r == Some(ClientMessage::LeaveRoom)
    } else if text == "/rooms"@ {
        r == Some(ClientMessage::ListRooms)
    } else if "/join "@.is_prefix_of(text) {
        let room = trimmed(text.skip("/join "@.len() as int));
        if room.len() == 0 {
            r is None
        } else {
            r matches Some(ClientMessage::JoinRoom { room: rm }) && rm@ == room
        }
    } else {
        r matches Some(ClientMessage::Chat { message }) && message@ == text
    }
}

/// The request that the typed line `input` stands for, if any.
pub fn parse_command(input: &str) -> (r: Option<ClientMessage>)
    ensures
        command_spec(input@, r),
{
    if same_text(input, "/leave") {
        Some(ClientMessage::LeaveRoom)
    } else if same_text(input, "/rooms") {
        Some(ClientMessage::ListRooms)
    } else {
        match strip_prefix(input, "/join ") {
            Some(rest) => {
                let room = trim(rest.as_str());
                if room.as_str().is_empty() {
                    None
                } else {
                    Some(ClientMessage::JoinRoom { room })
                }
            },
            None => Some(ClientMessage::Chat { message: input.to_string() }),
        }
    }
}

/// The line shown in the chat view for a notice from the server.
pub open spec fn display_text(msg: ServerMessage) -> Seq<char> {
    match msg {
        ServerMessage::AuthOk => "[auth] Authentication successful"@,
        ServerMessage::AuthError { message } => "[auth error] "@ + message@,
        ServerMessage::Welcome { message } => "[welcome] "@ + message@,
        ServerMessage::System { message } => "[system] "@ + message@,
        ServerMessage::Chat { username, room, message } => "["@ + room@ + "] "@ + username@ + ": "@
            + message@,
        ServerMessage::RoomJoined { room } => "[room] Joined "@ + room@,
        ServerMessage::RoomList { rooms } => "[rooms] "@ + seq_join(texts(rooms@), ", "@),
        ServerMessage::Error { message } => "[error] "@ + message@,
    }
}

/// The line shown in the chat view for a notice from the server.
pub fn display_line(msg: &ServerMessage) -> (r: String)
    ensures
        r@ == display_text(*msg),
{
    match msg {
        ServerMessage::AuthOk => "[auth] Authentication successful".to_string(),
        ServerMessage::AuthError { message } => concatenate("[auth error] ", message.as_str()),
        ServerMessage::Welcome { message } => concatenate("[welcome] ", message.as_str()),
        ServerMessage::System { message } => concatenate("[system] ", message.as_str()),
        ServerMessage::Chat { username, room, message } => {
            let a = concatenate("[", room.as_str());
            let b = concatenate(a.as_str(), "] ");
            let c = concatenate(b.as_str(), username.as_str());
            let d = concatenate(c.as_str(), ": ");
            concatenate(d.as_str(), message.as_str())
        },
        ServerMessage::RoomJoined { room } => concatenate("[room] Joined ", room.as_str()),
        ServerMessage::RoomList { rooms } => {
            let list = join(rooms, ", ");
            concatenate("[rooms] ", list.as_str())
        },
        ServerMessage::Error { message } => concatenate("[error] ", message.as_str()),
    }
}

/// `a - b`, or 0 when `b` is larger.
pub open spec fn sat_sub(a: int, b: int) -> int {
    if a > b {
        a - b
    } else {
        0
    }
}

fn saturating_sub(a: usize, b: usize) -> (r: usize)
    ensures
        r == sat_sub(a as int, b as int),
{
    if a > b {
        a - b
    } else {
        0
    }
}

/// The rows of the chat view inside its border, for a view `height` rows
/// high.
pub fn chat_rows(height: u16) -> (r: usize)
    ensures
        r == sat_sub(height as int, 2),
{
    if height > 2 {
        (height - 2) as usize
    } else {
        0
    }
}

/// The end of the lines shown, for `total` lines, scroll position `scroll`
/// and `rows` rows.
pub open spec fn window_end(total: int, scroll: int, rows: int) -> int {
    sat_sub(total, sat_sub(scroll, rows))
}

/// The start of the lines shown.
pub open spec fn window_start(total: int, scroll: int, rows: int) -> int {
    sat_sub(window_end(total, scroll, rows), rows)
}

/// The positions `start..end` of the lines shown, for `total` lines, scroll
/// position `scroll` and `rows` rows.
pub fn visible_range(total: usize, scroll: usize, rows: usize) -> (r: (usize, usize))
    ensures
        r.0 == window_start(total as int, scroll as int, rows as int),
        r.1 == window_end(total as int, scroll as int, rows as int),
{
    let end = saturating_sub(total, saturating_sub(scroll, rows));
    let start = saturating_sub(end, rows);
    (start, end)
}

impl App {
    /// The chat lines shown in a view of `rows` rows, one per line.
    pub fn visible_messages(&self, rows: usize) -> (r: String)
        ensures
            ({
                let total = self.messages.len() as int;
                let start = window_start(total, self.scroll as int, rows as int);
                let end = window_end(total, self.scroll as int, rows as int);
                if start < end && end <= total {
                    r@ == seq_join(texts(self.messages@.subrange(start, end)), "\n"@)
                } else {
                    r@ == Seq::<char>::empty()
                }
            }),
    {
        let total = self.messages.len();
        let (start, end) = visible_range(total, self.scroll, rows);
        if start < end && end <= total {
            join_range(&self.messages, start, end, "\n")
        } else {
            String::new()
        }
    }

    /// The status line under the input box.
    pub fn status_line(&self) -> (r: String)
        ensures
            r@ == "User: "@ + self.username@ + " | Room: "@ + self.room@
                + " | Commands: /join <room>  /leave  /rooms | Esc to quit"@,
    {
        let a = concatenate("User: ", self.username.as_str());
        let b = concatenate(a.as_str(), " | Room: ");
        let c = concatenate(b.as_str(), self.room.as_str());
        concatenate(c.as_str(), " | Commands: /join <room>  /leave  /rooms | Esc to quit")
    }

    /// Where the cursor goes in an input box whose top left corner is at
    /// `(x, y)`: just after the typed text, counted in bytes.
    pub fn cursor_position(&self, x: u16, y: u16) -> (r: (u16, u16))
        requires
            x + 1 + ((encode_utf8(self.input@).len() as usize) as u16) <= u16::MAX,
            y + 1 <= u16::MAX,
        ensures
            r.0 == x + 1 + ((encode_utf8(self.input@).len() as usize) as u16),
            r.1 == y + 1,
    {
        let len = self.input.as_str().len() as u16;
        (x + 1 + len, y + 1)
    }

    /// Shows a notice from the server in the chat view; a room change also
    /// updates the room.
    pub fn show(&mut self, msg: ServerMessage)
        requires
            old(self).messages.len() < usize::MAX,
        ensures
            texts(final(self).messages@) == keep_last(
                texts(old(self).messages@).push(display_text(msg)),
                MAX_MESSAGES as nat,
            ),
            final(self).scroll == final(self).messages.len(),
            final(self).input == old(self).input,
            final(self).username == old(self).username,
            msg matches ServerMessage::RoomJoined { room } ==> final(self).room == room,
            !(msg is RoomJoined) ==> final(self).room == old(self).room,
    {
        let line = display_line(&msg);
        let ghost before = self.messages@;
        let ghost line_text = line@;
        if let ServerMessage::RoomJoined { room } = msg {
            self.room = room;
        }
        self.push_message(line);
        proof {
            let pushed = before.push(self.messages@.last());
            assert(texts(pushed) =~= texts(before).push(line_text));
            assert(texts(keep_last(pushed, MAX_MESSAGES as nat)) =~= keep_last(
                texts(pushed),
                MAX_MESSAGES as nat,
            ));
        }
    }
}

/// Reads the typed line: the request it stands for, if any; the line is
/// cleared unless it holds nothing but white space.
pub fn handle_input(app: &mut App) -> (r: Option<ClientMessage>)
    ensures
        ({
            let text = trimmed(old(app).input@);
            if text.len() == 0 {
                r is None && final(app).input == old(app).input
            } else {
                command_spec(text, r) && final(app).input@ == Seq::<char>::empty()
            }
        }),
        final(app).messages == old(app).messages,
        final(app).username == old(app).username,
        final(app).room == old(app).room,
        final(app).scroll == old(app).scroll,
{
    let message = trim(app.input.as_str());
    if message.as_str().is_empty() {
        return None;
    }
    let r = parse_command(message.as_str());
    app.input = String::new();
    r
}

/// A key press, as the chat screen tells them apart.
pub enum Key {
    Char(char),
    Backspace,
    Enter,
    Up,
    Down,
    Esc,
    Other,
}

/// What a key press asks of the program.
pub enum KeyOutcome {
    /// Keep going.
    Continue,
    /// Send this request to the server.
    Send(ClientMessage),
    /// Leave the chat screen.
    Quit,
}

impl App {
    /// Reacts to a key press: typing, deleting, sending, scrolling, quitting.
    pub fn handle_key(&mut self, key: Key) -> (r: KeyOutcome)
        requires
            key is Down ==> old(self).scroll < usize::MAX,
        ensures
            final(self).messages == old(self).messages,
            final(self).username == old(self).username,
            final(self).room == old(self).room,
            match key {
                Key::Char(c) => r is Continue && final(self).input@ == old(self).input@.push(c)
                    && final(self).scroll == old(self).scroll,
                Key::Backspace => r is Continue && final(self).input@ == (if old(self).input@.len()
                    > 0 {
                    old(self).input@.drop_last()
                } else {
                    old(self).input@
                }) && final(self).scroll == old(self).scroll,
                Key::Enter => final(self).scroll == old(self).scroll && {
                    let text = trimmed(old(self).input@);
                    if text.len() == 0 {
                        r is Continue && final(self).input == old(self).input
                    } else {
                        final(self).input@ == Seq::<char>::empty() && match r {
                            KeyOutcome::Send(m) => command_spec(text, Some(m)),
                            KeyOutcome::Continue => command_spec(text, None),
                            KeyOutcome::Quit => false,
                        }
                    }
                },
                Key::Up => r is Continue && final(self).input == old(self).input
                    && final(self).scroll == scrolled_up(old(self).scroll),
                Key::Down => r is Continue && final(self).input == old(self).input
                    && final(self).scroll == old(self).scroll + 1,
                Key::Esc => r is Quit && final(self).input == old(self).input && final(self).scroll
                    == old(self).scroll,
                Key::Other => r is Continue && final(self).input == old(self).input
                    && final(self).scroll == old(self).scroll,
            },
    {
        match key {
            Key::Char(c) => {
                push_char(&mut self.input, c);
                KeyOutcome::Continue
            },
            Key::Backspace => {
                let _ = pop_char(&mut self.input);
                KeyOutcome::Continue
            },
            Key::Enter => match handle_input(self) {
                Some(m) => KeyOutcome::Send(m),
                None => KeyOutcome::Continue,
            },
            Key::Up => {
                self.scroll_up();
                KeyOutcome::Continue
            },
            Key::Down => {
                self.scroll_down();
                KeyOutcome::Continue
            },
            Key::Esc => KeyOutcome::Quit,
            Key::Other => KeyOutcome::Continue,
        }
    }
}


/// The lower-case form of a text as `str::to_lowercase` gives it: the
/// Unicode lower-case mapping of the text, which is character by character
/// except where Unicode makes it depend on the neighbours (the Greek final
/// sigma).
pub uninterp spec fn lowercase(s: Seq<char>) -> Seq<char>;

/// Lower-cases `s` with `str::to_lowercase`.
#[verifier::external_body]
fn to_lowercase(s: &str) -> (r: String)
    ensures
        r@ == lowercase(s@),
{
    s.to_lowercase()
}

/// Whether the user wants to create an account or sign in to one.
#[derive(Debug, PartialEq, Eq)]
pub enum AuthMode {
    Register,
    Login,
}

/// The sign-in mode that an already lower-cased answer names.
pub fn auth_mode_from(answer: &str) -> (r: Option<AuthMode>)
    ensures
        answer@ == "register"@ ==> r == Some(AuthMode::Register),
        answer@ == "login"@ ==> r == Some(AuthMode::Login),
        answer@ != "register"@ && answer@ != "login"@ ==> r is None,
{
    proof {
        reveal_strlit("register");
        reveal_strlit("login");
        assert("login"@.len() != "register"@.len());
    }
    if same_text(answer, "register") {
        Some(AuthMode::Register)
    } else if same_text(answer, "login") {
        Some(AuthMode::Login)
    } else {
        None
    }
}

/// The sign-in mode that the typed answer names: `register` or `login`,
/// in any case, with white space around it.
pub fn parse_auth_mode(input: &str) -> (r: Option<AuthMode>)
    ensures
        ({
            let answer = lowercase(trimmed(input@));
            &&& answer == "register"@ ==> r == Some(AuthMode::Register)
            &&& answer == "login"@ ==> r == Some(AuthMode::Login)
            &&& answer != "register"@ && answer != "login"@ ==> r is None
        }),
{
    let t = trim(input);
    let lowered = to_lowercase(t.as_str());
    auth_mode_from(lowered.as_str())
}

impl AuthMode {
    /// The first message of a connection in this mode.
    pub fn request(self, username: String, password: String) -> (r: ClientMessage)
        ensures
            self is Register ==> (r == (ClientMessage::Register { username, password })),
            self is Login ==> (r == (ClientMessage::Login { username, password })),
    {
        match self {
            AuthMode::Register => ClientMessage::Register { username, password },
            AuthMode::Login => ClientMessage::Login { username, password },
        }
    }
}

/// How the client reads the server's answer to its first message.
#[derive(Debug)]
pub enum AuthReply {
    /// Signed in.
    Accepted,
    /// Refused, for this reason.
    Refused(String),
    /// Some other notice came first.
    Unexpected(ServerMessage),
}

/// Reads the server's answer to the first message.
pub fn auth_reply(msg: ServerMessage) -> (r: AuthReply)
    ensures
        match msg {
            ServerMessage::AuthOk => r is Accepted,
            ServerMessage::AuthError { message } => r == AuthReply::Refused(message),
            other => r == AuthReply::Unexpected(other),
        },
{
    match msg {
        ServerMessage::AuthOk => AuthReply::Accepted,
        ServerMessage::AuthError { message } => AuthReply::Refused(message),
        other => AuthReply::Unexpected(other),
    }
}

/// A typed line that starts with "/join " (one space) and has something
/// other than white space after those six characters asks to join the room
/// named by that rest, trimmed; it is never sent as a chat line.
pub proof fn lemma_join_command_recognised(t: Seq<char>, r: Option<ClientMessage>)
    requires
        command_spec(t, r),
        t.len() >= 6,
        t[0] == '/' && t[1] == 'j' && t[2] == 'o' && t[3] == 'i' && t[4] == 'n' && t[5] == ' ',
        trimmed(t.skip(6)).len() > 0,
    ensures
        r matches Some(ClientMessage::JoinRoom { room }) && room@ == trimmed(t.skip(6)),
{
    reveal_strlit("/join ");
    reveal_strlit("/leave");
    reveal_strlit("/rooms");
    assert(t != "/leave"@) by {
        assert("/leave"@[1] == 'l');
    }
    assert(t != "/rooms"@) by {
        assert("/rooms"@[1] == 'r');
    }
    assert("/join "@.is_prefix_of(t));
}

/// A typed line that does not start with '/' is sent as a chat line, as it
/// is.
pub proof fn lemma_plain_line_is_chat(t: Seq<char>, r: Option<ClientMessage>)
    requires
        command_spec(t, r),
        t.len() > 0,
        t[0] != '/',
    ensures
        r matches Some(ClientMessage::Chat { message }) && message@ == t,
{
    reveal_strlit("/join ");
    reveal_strlit("/leave");
    reveal_strlit("/rooms");
    assert(t != "/leave"@) by {
        assert("/leave"@[0] == '/');
    }
    assert(t != "/rooms"@) by {
        assert("/rooms"@[0] == '/');
    }
    assert(!"/join "@.is_prefix_of(t)) by {
        assert("/join "@[0] == '/');
    }
}

/// The chat window for `total` lines, scroll position `scroll` and `rows`
/// rows: the lines after the window are as many as the scroll position
/// exceeds the rows (all of them when it exceeds the total), and the window
/// holds the `rows` lines before that point, or all of them when there are
/// fewer.
pub proof fn lemma_window_fits_view(total: usize, scroll: usize, rows: usize, r: (usize, usize))
    requires
        r.0 == window_start(total as int, scroll as int, rows as int),
        r.1 == window_end(total as int, scroll as int, rows as int),
    ensures
        r.0 <= r.1 <= total,
        scroll <= rows ==> r.1 == total,
        rows <= scroll <= total + rows ==> total - r.1 == scroll - rows,
        scroll >= total + rows ==> r.1 == 0,
        r.1 >= rows ==> r.1 - r.0 == rows,
        r.1 < rows ==> r.0 == 0,
{
}

/// Adding a line to a history below the limit drops nothing; at the limit
/// it drops the oldest lines so that exactly `MAX_MESSAGES` remain, and the
/// history is always the newest part of the old one followed by the new
/// line.
pub proof fn lemma_history_keeps_newest(old: Seq<String>, message: String, new: Seq<String>)
    requires
        new == keep_last(old.push(message), MAX_MESSAGES as nat),
    ensures
        old.len() < 200 ==> new == old.push(message),
        old.len() >= 200 ==> new.len() == 200,
        new.len() > 0 && new.last() == message,
        new.drop_last() == old.subrange(old.len() - (new.len() - 1), old.len() as int),
{
    assert(new.drop_last() =~= old.subrange(old.len() - (new.len() - 1), old.len() as int));
}

} // verus!
