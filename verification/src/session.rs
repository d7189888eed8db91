//! The two WebSocket session protocols, as functions from what just happened
//! to what the connection does next: the file-change notification stream and
//! the interactive terminal.

use base64::engine::general_purpose::STANDARD;
use base64::Engine;
use vstd::prelude::*;
use vstd::string::*;

use crate::listing::IoErrorKind;
use crate::models::{FileEvent, TerminalClientMessage, TerminalHandshake, TerminalServerMessage};

verus! {

/// Something that happened on a notification connection.
#[derive(Debug, Clone, PartialEq, Eq)]
pub enum NotifyInput {
    /// The client pinged with this payload.
    Ping(Vec<u8>),
    /// The client asked to close.
    Close,
    /// The client's stream failed or ended.
    StreamEnded,
    /// Any other client message.
    OtherMessage,
    /// A file changed.
    Event(FileEvent),
    /// The change channel failed (closed, or the connection fell behind it).
    ChannelFailed,
    /// Sending to the client failed.
    SendFailed,
}

/// What a notification connection does next.
#[derive(Debug, Clone, PartialEq, Eq)]
pub enum NotifyAction {
    /// Answer a ping with this payload.
    Pong(Vec<u8>),
    /// Send this change to the client.
    Send(FileEvent),
    /// Nothing; wait for the next input.
    Wait,
    /// Close the connection.
    Stop,
}

/// What a notification connection does after `input`.
pub open spec fn notify_action_of(input: NotifyInput) -> NotifyAction {
    match input {
        NotifyInput::Ping(p) => NotifyAction::Pong(p),
        NotifyInput::Event(e) => NotifyAction::Send(e),
        NotifyInput::OtherMessage => NotifyAction::Wait,
        _ => NotifyAction::Stop,
    }
}

/// Every file change that reaches a notification connection is sent to its
/// client as it is, whatever its kind; every ping is answered with its own
/// payload; a close, the end of the client's stream, a failure of the change
/// channel or of a send ends the connection.
pub proof fn lemma_notify_forwards_every_change(e: FileEvent, p: Vec<u8>)
    ensures
        notify_action_of(NotifyInput::Event(e)) == NotifyAction::Send(e),
        notify_action_of(NotifyInput::Ping(p)) == NotifyAction::Pong(p),
        notify_action_of(NotifyInput::Close) == NotifyAction::Stop,
        notify_action_of(NotifyInput::StreamEnded) == NotifyAction::Stop,
        notify_action_of(NotifyInput::ChannelFailed) == NotifyAction::Stop,
        notify_action_of(NotifyInput::SendFailed) == NotifyAction::Stop,
{
}

/// What a notification connection does after `input`: pings are answered,
/// changes forwarded, other messages ignored, and a close request, the end
/// of the client's stream, a failure of the change channel or of a send end
/// the connection.
pub fn notify_step(input: NotifyInput) -> (action: NotifyAction)
    ensures
        action == notify_action_of(input),
        input matches NotifyInput::Event(e) ==> action == NotifyAction::Send(e),
        input matches NotifyInput::Ping(p) ==> action == NotifyAction::Pong(p),
        input is OtherMessage ==> action == NotifyAction::Wait,
        (input is Close || input is StreamEnded || input is ChannelFailed || input is SendFailed)
            ==> action == NotifyAction::Stop,
{
    match input {
        NotifyInput::Ping(p) => NotifyAction::Pong(p),
        NotifyInput::Event(e) => NotifyAction::Send(e),
        NotifyInput::OtherMessage => NotifyAction::Wait,
        _ => NotifyAction::Stop,
    }
}

/// The character of the standard base64 alphabet for the 6-bit value `v`.
pub open spec fn base64_digit(v: int) -> char {
    if v < 26 {
        ((v + 65) as u32) as char
    } else if v < 52 {
        ((v - 26 + 97) as u32) as char
    } else if v < 62 {
        ((v - 52 + 48) as u32) as char
    } else if v == 62 {
        '+'
    } else {
        '/'
    }
}

/// The standard base64 text of `bytes`: each group of three bytes becomes
/// four digits, and a last group of one or two bytes is padded with `=`.
pub open spec fn base64_encoded(bytes: Seq<u8>) -> Seq<char>
    decreases bytes.len(),
{
    if bytes.len() == 0 {
        Seq::empty()
    } else if bytes.len() == 1 {
        let b0 = bytes[0] as int;
        seq![base64_digit(b0 / 4), base64_digit((b0 % 4) * 16), '=', '=']
    } else if bytes.len() == 2 {
        let b0 = bytes[0] as int;
        let b1 = bytes[1] as int;
        seq![
            base64_digit(b0 / 4),
            base64_digit((b0 % 4) * 16 + b1 / 16),
            base64_digit((b1 % 16) * 4),
            '=',
        ]
    } else {
        let b0 = bytes[0] as int;
        let b1 = bytes[1] as int;
        let b2 = bytes[2] as int;
        seq![
            base64_digit(b0 / 4),
            base64_digit((b0 % 4) * 16 + b1 / 16),
            base64_digit((b1 % 16) * 4 + b2 / 64),
            base64_digit(b2 % 64),
        ] + base64_encoded(bytes.subrange(3, bytes.len() as int))
    }
}

/// Distinct 6-bit values have distinct digits, and no digit is the padding
/// character.
proof fn lemma_base64_digit(x: int, y: int)
    requires
        0 <= x < 64,
        0 <= y < 64,
    ensures
        base64_digit(x) != '=',
        base64_digit(x) == base64_digit(y) ==> x == y,
{
}

/// The standard base64 text of a nonempty byte sequence has at least four
/// characters.
proof fn lemma_base64_len(bytes: Seq<u8>)
    requires
        bytes.len() > 0,
    ensures
        base64_encoded(bytes).len() >= 4,
{
}

/// Two byte sequences with the same standard base64 text are equal.
pub proof fn lemma_base64_injective(a: Seq<u8>, b: Seq<u8>)
    requires
        base64_encoded(a) == base64_encoded(b),
    ensures
        a == b,
    decreases a.len(),
{
    let t = base64_encoded(a);
    if a.len() == 0 || b.len() == 0 {
        if a.len() > 0 {
            lemma_base64_len(a);
        }
        if b.len() > 0 {
            lemma_base64_len(b);
        }
        assert(a =~= b);
    } else {
        let a0 = a[0] as int;
        let b0 = b[0] as int;
        lemma_base64_len(a);
        lemma_base64_len(b);
        let a1 = if a.len() > 1 { a[1] as int } else { 0 };
        let b1 = if b.len() > 1 { b[1] as int } else { 0 };
        let a2 = if a.len() > 2 { a[2] as int } else { 0 };
        let b2 = if b.len() > 2 { b[2] as int } else { 0 };
        let ax = (a0 % 4) * 16 + a1 / 16;
        let bx = (b0 % 4) * 16 + b1 / 16;
        let ay = (a1 % 16) * 4 + a2 / 64;
        let by_ = (b1 % 16) * 4 + b2 / 64;
        lemma_base64_digit(a0 / 4, b0 / 4);
        lemma_base64_digit(ax, bx);
        lemma_base64_digit(ay, by_);
        lemma_base64_digit(a2 % 64, b2 % 64);
        lemma_base64_digit(ay, 0);
        lemma_base64_digit(by_, 0);
        lemma_base64_digit(a2 % 64, 0);
        lemma_base64_digit(b2 % 64, 0);
        // the padding tells how many bytes the first group holds
        assert((a.len() == 1) == (b.len() == 1));
        assert((a.len() == 2) == (b.len() == 2));
        let u = base64_encoded(b);
        assert(t[0] == base64_digit(a0 / 4));
        assert(u[0] == base64_digit(b0 / 4));
        assert(t[1] == base64_digit(ax));
        assert(u[1] == base64_digit(bx));
        assert(a0 / 4 == b0 / 4);
        assert(ax == bx);
        assert(a0 == b0) by (nonlinear_arith)
            requires
                a0 / 4 == b0 / 4,
                (a0 % 4) * 16 + a1 / 16 == (b0 % 4) * 16 + b1 / 16,
                0 <= a0 < 256,
                0 <= b0 < 256,
                0 <= a1 < 256,
                0 <= b1 < 256,
        ;
        if a.len() == 1 {
            assert(a =~= b);
        } else {
            assert(t[2] == base64_digit(ay));
            assert(u[2] == base64_digit(by_));
            assert(ay == by_);
            assert(a1 == b1) by (nonlinear_arith)
                requires
                    (a0 % 4) * 16 + a1 / 16 == (b0 % 4) * 16 + b1 / 16,
                    (a1 % 16) * 4 + a2 / 64 == (b1 % 16) * 4 + b2 / 64,
                    a0 == b0,
                    0 <= a1 < 256,
                    0 <= b1 < 256,
                    0 <= a2 < 256,
                    0 <= b2 < 256,
            ;
            if a.len() == 2 {
                assert(a =~= b);
            } else {
                assert(t[3] == base64_digit(a2 % 64));
                assert(u[3] == base64_digit(b2 % 64));
                assert(a2 % 64 == b2 % 64);
                assert(a2 == b2) by (nonlinear_arith)
                    requires
                        (a1 % 16) * 4 + a2 / 64 == (b1 % 16) * 4 + b2 / 64,
                        a1 == b1,
                        a2 % 64 == b2 % 64,
                        0 <= a2 < 256,
                        0 <= b2 < 256,
                ;
                let ra = a.subrange(3, a.len() as int);
                let rb = b.subrange(3, b.len() as int);
                assert(base64_encoded(ra) =~= t.subrange(4, t.len() as int));
                assert(base64_encoded(rb) =~= t.subrange(4, t.len() as int));
                lemma_base64_injective(ra, rb);
                assert(a =~= seq![a[0], a[1], a[2]] + ra);
                assert(b =~= seq![b[0], b[1], b[2]] + rb);
            }
        }
    }
}

/// The bytes whose standard base64 text is `text`, or `None` when `text` is
/// not such a text.
pub open spec fn base64_decoded(text: Seq<char>) -> Option<Seq<u8>> {
    if exists|b: Seq<u8>| #[trigger] base64_encoded(b) == text {
        Some(choose|b: Seq<u8>| #[trigger] base64_encoded(b) == text)
    } else {
        None
    }
}

/// Decoding the standard base64 text of `bytes` gives `bytes` back.
pub proof fn lemma_base64_round_trip(bytes: Seq<u8>)
    ensures
        base64_decoded(base64_encoded(bytes)) == Some(bytes),
{
    let text = base64_encoded(bytes);
    assert(exists|b: Seq<u8>| #[trigger] base64_encoded(b) == text);
    let c = choose|b: Seq<u8>| #[trigger] base64_encoded(b) == text;
    lemma_base64_injective(c, bytes);
}

/// `base64::Engine::encode` with the standard engine: the padded base64
/// text of `bytes`.
#[verifier::external_body]
fn encode_base64(bytes: &[u8]) -> (text: String)
    ensures
        text@ == base64_encoded(bytes@),
{
    STANDARD.encode(bytes)
}

/// `base64::Engine::decode` with the standard engine, which requires
/// canonical padding and no trailing bits: the bytes whose standard base64
/// text is exactly `text`, or `None` when no bytes have it.
#[verifier::external_body]
fn decode_base64(text: &str) -> (bytes: Option<Vec<u8>>)
    ensures
        match bytes {
            Some(b) => base64_encoded(b@) == text@,
            None => forall|b: Seq<u8>| #[trigger] base64_encoded(b) != text@,
        },
{
    STANDARD.decode(text).ok()
}

/// A lowercase hexadecimal digit.
pub open spec fn is_lower_hex(c: char) -> bool {
    ('0' <= c && c <= '9') || ('a' <= c && c <= 'f')
}

/// `s` is a random (version 4) UUID in its hyphenated form: 36 characters,
/// hyphens at positions 8, 13, 18 and 23, lowercase hexadecimal digits
/// elsewhere, the version digit `4` at position 14, and one of `8`, `9`,
/// `a`, `b` (the variant) at position 19.
pub open spec fn is_uuid_v4_text(s: Seq<char>) -> bool {
    &&& s.len() == 36
    &&& forall|i: int|
        0 <= i < 36 ==> if i == 8 || i == 13 || i == 18 || i == 23 {
            s[i] == '-'
        } else {
            is_lower_hex(#[trigger] s[i])
        }
    &&& s[14] == '4'
    &&& (s[19] == '8' || s[19] == '9' || s[19] == 'a' || s[19] == 'b')
}

/// `uuid::Uuid::new_v4().to_string()`: a fresh random identifier in the
/// hyphenated form of a version 4 UUID. Which identifier comes out is left
/// open: its random bits come from the operating system.
#[verifier::external_body]
fn fresh_session_id() -> (id: String)
    ensures
        is_uuid_v4_text(id@),
{
    uuid::Uuid::new_v4().to_string()
}

/// The greeting of a terminal session: its identifier and the initial size
/// of 80 columns by 24 rows.
pub fn handshake(session_id: String) -> (msg: TerminalServerMessage)
    ensures
        msg == TerminalServerMessage::Handshake(
            TerminalHandshake { session_id, cols: 80, rows: 24 },
        ),
{
    TerminalServerMessage::Handshake(TerminalHandshake { session_id, cols: 80, rows: 24 })
}

/// Opens a terminal session: a fresh identifier and the greeting that
/// carries it.
pub fn open_terminal_session() -> (r: (String, TerminalServerMessage))
    ensures
        is_uuid_v4_text(r.0@),
        r.1 matches TerminalServerMessage::Handshake(h) && h.session_id@ == r.0@ && h.cols == 80
            && h.rows == 24,
{
    let id = fresh_session_id();
    let greeting = String::from_str(id.as_str());
    (id, handshake(greeting))
}

/// What one read of the terminal gave.
#[derive(Debug, Clone, PartialEq, Eq)]
pub enum PtyRead {
    /// These bytes (none when nothing was ready).
    Bytes(Vec<u8>),
    /// The terminal is gone; the exit code of its process, when that
    /// process has exited with one.
    Failed(Option<i32>),
}

/// The code the exit message carries for a terminal whose process left
/// `status`: its exit code, or -1 when it has none (it was ended by a
/// signal, or has not been seen to exit).
pub open spec fn exit_code(status: Option<i32>) -> i32 {
    match status {
        Some(c) => c,
        None => -1i32,
    }
}

/// What a read of the terminal that failed with an error of kind `kind`
/// means, where `status` is the exit code of the terminal's process if it
/// has exited with one: no output yet when the read would block, else the
/// end of the terminal, with that exit code.
pub fn pty_read_failure(kind: IoErrorKind, status: Option<i32>) -> (r: PtyRead)
    ensures
        kind == IoErrorKind::WouldBlock ==> (r matches PtyRead::Bytes(b) && b@.len() == 0),
        kind != IoErrorKind::WouldBlock ==> r == PtyRead::Failed(status),
{
    match kind {
        IoErrorKind::WouldBlock => PtyRead::Bytes(Vec::new()),
        _ => PtyRead::Failed(status),
    }
}

/// Something that happened on a terminal connection.
#[derive(Debug, Clone, PartialEq, Eq)]
pub enum TerminalInput {
    /// A text message from the client: the message it parses as, if any.
    Text(Option<TerminalClientMessage>),
    /// The client pinged with this payload.
    Ping(Vec<u8>),
    /// The client asked to close.
    Close,
    /// The client's stream failed or ended.
    StreamEnded,
    /// Any other client message.
    OtherMessage,
    /// The polling interval passed and the terminal was read.
    Tick(PtyRead),
    /// Sending to the client failed.
    SendFailed,
}

/// What a terminal connection does next.
#[derive(Debug, Clone, PartialEq, Eq)]
pub enum TerminalAction {
    /// Nothing; wait for the next input.
    Wait,
    /// Write these bytes to the terminal.
    Write(Vec<u8>),
    /// Resize the terminal.
    Resize { rows: u16, cols: u16 },
    /// Answer a ping with this payload.
    Pong(Vec<u8>),
    /// Send this message to the client.
    Send(TerminalServerMessage),
    /// Send this message to the client, whatever comes of it, and close.
    SendAndStop(TerminalServerMessage),
    /// Close the connection.
    Stop,
}

/// `action` is what a terminal connection does after `input`, where
/// `attached` tells whether the connection's terminal is still registered:
/// input is decoded and written to the terminal (dropped when it is not
/// valid base64), resizes go to the terminal as rows then columns, pings are
/// answered, unparsable and other messages ignored; on each tick, output read
/// from the terminal is sent base64-encoded (decoding it gives the output
/// back), and a failed read sends the exit
/// message with the exit code of the terminal's process and closes; a close request, the end of the client's
/// stream and a failed send close the connection. Without a terminal,
/// messages for it and ticks do nothing.
pub open spec fn terminal_action_ok(input: TerminalInput, attached: bool, action: TerminalAction) -> bool {
    match input {
        TerminalInput::Text(msg) => match msg {
            Some(TerminalClientMessage::Input { data }) => if !attached {
                action == TerminalAction::Wait
            } else {
                match base64_decoded(data@) {
                    Some(b) => action matches TerminalAction::Write(v) && v@ == b,
                    None => action == TerminalAction::Wait,
                }
            },
            Some(TerminalClientMessage::Resize { cols, rows }) => if attached {
                action == (TerminalAction::Resize { rows, cols })
            } else {
                action == TerminalAction::Wait
            },
            None => action == TerminalAction::Wait,
        },
        TerminalInput::Ping(p) => action == TerminalAction::Pong(p),
        TerminalInput::OtherMessage => action == TerminalAction::Wait,
        TerminalInput::Tick(read) => if !attached {
            action == TerminalAction::Wait
        } else {
            match read {
                PtyRead::Bytes(b) => if b@.len() > 0 {
                    action matches TerminalAction::Send(TerminalServerMessage::Output { data })
                        && data@ == base64_encoded(b@) && base64_decoded(data@) == Some(b@)
                } else {
                    action == TerminalAction::Wait
                },
                PtyRead::Failed(status) => action == TerminalAction::SendAndStop(
                    TerminalServerMessage::Exit { code: exit_code(status) },
                ),
            }
        },
        _ => action == TerminalAction::Stop,
    }
}

/// On a connection with a terminal: input the client sends is written to
/// the terminal as the bytes it encodes; a resize goes to the terminal with
/// the client's rows and columns; output read from the terminal is sent as
/// text that decodes to exactly those bytes; when the terminal is gone the
/// exit message carries its process's exit code (-1 when it has none) and
/// the connection closes. A ping is always answered with its own payload.
pub proof fn lemma_terminal_actions(input: TerminalInput, action: TerminalAction)
    requires
        terminal_action_ok(input, true, action),
    ensures
        input matches TerminalInput::Text(Some(TerminalClientMessage::Input { data }))
            ==> match action {
            TerminalAction::Write(v) => base64_encoded(v@) == data@,
            TerminalAction::Wait => forall|b: Seq<u8>| #[trigger] base64_encoded(b) != data@,
            _ => false,
        },
        input matches TerminalInput::Text(Some(TerminalClientMessage::Resize { cols: c, rows: r }))
            ==> action matches TerminalAction::Resize { rows, cols } && rows == r && cols == c,
        input matches TerminalInput::Tick(PtyRead::Bytes(b)) ==> b@.len() > 0 ==> (
        action matches TerminalAction::Send(TerminalServerMessage::Output { data })
            && base64_encoded(b@) == data@),
        input matches TerminalInput::Tick(PtyRead::Bytes(b)) ==> b@.len() == 0 ==> action
            == TerminalAction::Wait,
        input matches TerminalInput::Tick(PtyRead::Failed(Some(c))) ==> action
            == TerminalAction::SendAndStop(TerminalServerMessage::Exit { code: c }),
        input matches TerminalInput::Tick(PtyRead::Failed(None)) ==> action
            == TerminalAction::SendAndStop(TerminalServerMessage::Exit { code: -1i32 }),
        input matches TerminalInput::Ping(p) ==> action == TerminalAction::Pong(p),
        (input is Close || input is StreamEnded || input is SendFailed) ==> action
            == TerminalAction::Stop,
{
    if let TerminalInput::Text(Some(TerminalClientMessage::Input { data })) = input {
        if let Some(b) = base64_decoded(data@) {
            let c = choose|c: Seq<u8>| #[trigger] base64_encoded(c) == data@;
            assert(base64_encoded(c) == data@);
        }
    }
}

/// What a terminal connection does after `input`, where `attached` tells
/// whether the connection's terminal is still registered.
pub fn terminal_step(input: TerminalInput, attached: bool) -> (action: TerminalAction)
    ensures
        terminal_action_ok(input, attached, action),
{
    match input {
        TerminalInput::Text(msg) => match msg {
            Some(TerminalClientMessage::Input { data }) => {
                if !attached {
                    return TerminalAction::Wait;
                }
                match decode_base64(data.as_str()) {
                    Some(bytes) => {
                        proof {
                            lemma_base64_round_trip(bytes@);
                        }
                        TerminalAction::Write(bytes)
                    },
                    None => TerminalAction::Wait,
                }
            },
            Some(TerminalClientMessage::Resize { cols, rows }) => {
                if attached {
                    TerminalAction::Resize { rows, cols }
                } else {
                    TerminalAction::Wait
                }
            },
            None => TerminalAction::Wait,
        },
        TerminalInput::Ping(p) => TerminalAction::Pong(p),
        TerminalInput::OtherMessage => TerminalAction::Wait,
        TerminalInput::Tick(read) => {
            if !attached {
                return TerminalAction::Wait;
            }
            match read {
                PtyRead::Bytes(b) => {
                    if b.len() > 0 {
                        let data = encode_base64(b.as_slice());
                        proof {
                            lemma_base64_round_trip(b@);
                        }
                        TerminalAction::Send(TerminalServerMessage::Output { data })
                    } else {
                        TerminalAction::Wait
                    }
                },
                PtyRead::Failed(status) => {
                    let code: i32 = match status {
                        Some(c) => c,
                        None => -1,
                    };
                    TerminalAction::SendAndStop(TerminalServerMessage::Exit { code })
                },
            }
        },
        TerminalInput::Close => TerminalAction::Stop,
        TerminalInput::StreamEnded => TerminalAction::Stop,
        TerminalInput::SendFailed => TerminalAction::Stop,
    }
}

} // verus!
