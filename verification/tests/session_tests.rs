use mdterm::listing::IoErrorKind;
use mdterm::models::{FileEvent, TerminalClientMessage, TerminalHandshake, TerminalServerMessage};
use mdterm::session::{
    handshake, notify_step, open_terminal_session, pty_read_failure, terminal_step, NotifyAction,
    NotifyInput, PtyRead, TerminalAction, TerminalInput,
};

#[test]
fn notify_forwards_events_and_answers_pings() {
    let ev = FileEvent::Deleted { path: "a.md".to_string() };
    assert_eq!(notify_step(NotifyInput::Event(ev.clone())), NotifyAction::Send(ev));
    assert_eq!(notify_step(NotifyInput::Ping(vec![1, 2])), NotifyAction::Pong(vec![1, 2]));
    assert_eq!(notify_step(NotifyInput::OtherMessage), NotifyAction::Wait);
}

#[test]
fn notify_stops_on_close_errors_and_failed_sends() {
    for input in [NotifyInput::Close, NotifyInput::StreamEnded, NotifyInput::ChannelFailed, NotifyInput::SendFailed] {
        assert_eq!(notify_step(input), NotifyAction::Stop);
    }
}

#[test]
fn handshake_uses_default_size() {
    assert_eq!(
        handshake("abc".to_string()),
        TerminalServerMessage::Handshake(TerminalHandshake { session_id: "abc".to_string(), cols: 80, rows: 24 })
    );
    let (id, greeting) = open_terminal_session();
    assert_eq!(id.len(), 36);
    for (i, c) in id.chars().enumerate() {
        if i == 8 || i == 13 || i == 18 || i == 23 {
            assert_eq!(c, '-');
        } else {
            assert!(c.is_ascii_digit() || ('a'..='f').contains(&c), "{}", id);
        }
    }
    assert_eq!(id.chars().nth(14), Some('4'));
    assert!(matches!(id.chars().nth(19), Some('8' | '9' | 'a' | 'b')));
    match greeting {
        TerminalServerMessage::Handshake(h) => {
            assert_eq!(h.session_id, id);
            assert_eq!((h.cols, h.rows), (80, 24));
        }
        _ => panic!("expected handshake"),
    }
    let (other, _) = open_terminal_session();
    assert_ne!(id, other);
}

#[test]
fn terminal_input_is_base64_decoded() {
    let msg = TerminalClientMessage::Input { data: "bHMK".to_string() };
    assert_eq!(terminal_step(TerminalInput::Text(Some(msg.clone())), true), TerminalAction::Write(b"ls\n".to_vec()));
    assert_eq!(terminal_step(TerminalInput::Text(Some(msg)), false), TerminalAction::Wait);
    let bad = TerminalClientMessage::Input { data: "not base64!".to_string() };
    assert_eq!(terminal_step(TerminalInput::Text(Some(bad)), true), TerminalAction::Wait);
    assert_eq!(terminal_step(TerminalInput::Text(None), true), TerminalAction::Wait);
}

#[test]
fn terminal_resize_passes_rows_then_columns() {
    let msg = TerminalClientMessage::Resize { cols: 120, rows: 30 };
    assert_eq!(terminal_step(TerminalInput::Text(Some(msg)), true), TerminalAction::Resize { rows: 30, cols: 120 });
}

#[test]
fn terminal_output_is_base64_encoded() {
    let out = terminal_step(TerminalInput::Tick(PtyRead::Bytes(b"Hello world\n".to_vec())), true);
    assert_eq!(out, TerminalAction::Send(TerminalServerMessage::Output { data: "SGVsbG8gd29ybGQK".to_string() }));
    assert_eq!(terminal_step(TerminalInput::Tick(PtyRead::Bytes(Vec::new())), true), TerminalAction::Wait);
    assert_eq!(terminal_step(TerminalInput::Tick(PtyRead::Bytes(b"x".to_vec())), false), TerminalAction::Wait);
}

#[test]
fn terminal_exit_and_stop() {
    assert_eq!(
        terminal_step(TerminalInput::Tick(PtyRead::Failed(Some(0))), true),
        TerminalAction::SendAndStop(TerminalServerMessage::Exit { code: 0 })
    );
    assert_eq!(
        terminal_step(TerminalInput::Tick(PtyRead::Failed(Some(3))), true),
        TerminalAction::SendAndStop(TerminalServerMessage::Exit { code: 3 })
    );
    assert_eq!(
        terminal_step(TerminalInput::Tick(PtyRead::Failed(None)), true),
        TerminalAction::SendAndStop(TerminalServerMessage::Exit { code: -1 })
    );
    assert_eq!(terminal_step(TerminalInput::Tick(PtyRead::Failed(Some(3))), false), TerminalAction::Wait);
    assert_eq!(terminal_step(TerminalInput::Close, true), TerminalAction::Stop);
    assert_eq!(terminal_step(TerminalInput::StreamEnded, true), TerminalAction::Stop);
    assert_eq!(terminal_step(TerminalInput::SendFailed, true), TerminalAction::Stop);
    assert_eq!(terminal_step(TerminalInput::Ping(vec![9]), false), TerminalAction::Pong(vec![9]));
    assert_eq!(terminal_step(TerminalInput::OtherMessage, true), TerminalAction::Wait);
}

#[test]
fn pty_reads_that_would_block_are_empty() {
    assert_eq!(pty_read_failure(IoErrorKind::WouldBlock, None), PtyRead::Bytes(Vec::new()));
    assert_eq!(pty_read_failure(IoErrorKind::Other, Some(2)), PtyRead::Failed(Some(2)));
    assert_eq!(pty_read_failure(IoErrorKind::Other, None), PtyRead::Failed(None));
}
