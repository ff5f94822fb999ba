//! Control connections, against a server that only exists in memory.
use cxa::app_server::{read_line, write_line, LineReader, MAX_MESSAGE_SIZE};
use cxa::control::{
    append_payload, expects_answer, read_message, receive_text, send_frame, socket_error, valid_text,
    validate_close_payload, ControlClient,
};
use cxa::effects::{Attempt, Halt, Reply, Request, Trouble};
use cxa::error::Error;
use cxa::handshake::{
    header_has_token, lines, upgrade_request, validate_upgrade, websocket_accept,
};
use cxa::json::Json;
use cxa::sha1::sha1;

const MILLISECOND: u64 = 1_000_000;

#[derive(Clone, Copy, PartialEq)]
enum Mode {
    Exchange,
    BadAccept,
    Oversized,
    Timeout,
    Trickle,
}

#[derive(Clone, Copy, PartialEq)]
enum Phase {
    Handshake,
    Initialize,
    Pong,
    Initialized,
    Request,
    Refusal,
    Over,
}

fn json(bytes: &[u8]) -> Json {
    match read_line(&bytes.to_vec()) {
        Ok(value) => value,
        Err(complaint) => panic!("{complaint}"),
    }
}

struct Server {
    mode: Mode,
    phase: Phase,
    now: u64,
    deadline: u64,
    received: Vec<u8>,
    sent: Vec<u8>,
    handshake: String,
    messages: Vec<Json>,
    pong: Vec<u8>,
}

fn frame(opcode: u8, payload: &[u8], last: bool) -> Vec<u8> {
    let mut bytes = vec![(if last { 0x80 } else { 0 }) | opcode];
    if payload.len() <= 125 {
        bytes.push(payload.len() as u8);
    } else {
        bytes.push(126);
        bytes.extend_from_slice(&(payload.len() as u16).to_be_bytes());
    }
    bytes.extend_from_slice(payload);
    bytes
}

impl Server {
    fn start(mode: Mode) -> Server {
        Server {
            mode,
            phase: Phase::Handshake,
            now: 0,
            deadline: 0,
            received: Vec::new(),
            sent: Vec::new(),
            handshake: String::new(),
            messages: Vec::new(),
            pong: Vec::new(),
        }
    }

    fn header(&self, name: &str) -> String {
        let prefix = format!("{name}: ");
        self.handshake
            .split("\r\n")
            .find_map(|line| line.strip_prefix(&prefix))
            .unwrap_or_default()
            .to_owned()
    }

    fn take_frame(&mut self) -> Option<(u8, Vec<u8>)> {
        let bytes = &self.received;
        if bytes.len() < 2 {
            return None;
        }
        assert!(bytes[1] & 0x80 != 0, "client frame was not masked");
        let (length, head) = match bytes[1] & 0x7f {
            126 if bytes.len() >= 4 => (u16::from_be_bytes([bytes[2], bytes[3]]) as usize, 4),
            126 => return None,
            short => (short as usize, 2),
        };
        if bytes.len() < head + 4 + length {
            return None;
        }
        let mask = bytes[head..head + 4].to_vec();
        let payload = (0..length).map(|i| bytes[head + 4 + i] ^ mask[i % 4]).collect();
        let opcode = bytes[0] & 0x0f;
        self.received.drain(..head + 4 + length);
        Some((opcode, payload))
    }

    fn react(&mut self) {
        if self.phase == Phase::Handshake {
            if !self.received.ends_with(b"\r\n\r\n") {
                return;
            }
            self.handshake = String::from_utf8(std::mem::take(&mut self.received)).unwrap();
            let accept = if self.mode == Mode::BadAccept {
                "invalid".to_owned()
            } else {
                websocket_accept(&self.header("Sec-WebSocket-Key"))
            };
            let answer = format!(
                "HTTP/1.1 101 Switching Protocols\r\nUpgrade: websocket\r\n\
                 Connection: keep-alive, Upgrade\r\nSec-WebSocket-Accept: {accept}\r\n\r\n"
            );
            self.sent.extend_from_slice(answer.as_bytes());
            self.phase = Phase::Initialize;
            return;
        }
        while let Some((opcode, payload)) = self.take_frame() {
            if opcode == 10 {
                self.pong = payload;
                self.phase = Phase::Initialized;
                continue;
            }
            self.messages.push(json(&payload));
            match self.phase {
                Phase::Initialize => {
                    let response = br#"{"id":0,"result":{}}"#;
                    let half = response.len() / 2;
                    self.sent.extend(frame(1, &response[..half], false));
                    self.sent.extend(frame(9, b"health", true));
                    self.sent.extend(frame(0, &response[half..], true));
                    self.phase = Phase::Pong;
                }
                Phase::Initialized => self.phase = Phase::Request,
                Phase::Request => match self.mode {
                    Mode::Timeout => self.phase = Phase::Over,
                    Mode::Trickle => {
                        self.sent.extend(frame(1, br#"{"id": 1, "result": {"ok": true}}"#, true));
                        self.phase = Phase::Over;
                    }
                    Mode::Oversized => {
                        self.sent.extend_from_slice(&[0x81, 127]);
                        self.sent.extend_from_slice(&(4 * 1024 * 1024 + 1u64).to_be_bytes());
                        self.phase = Phase::Over;
                    }
                    _ => {
                        let note = br#"{"method":"account/updated","params":{}}"#;
                        self.sent.extend(frame(1, note, true));
                        let foreign = br#"{"id":"approval-1","method":"item/commandExecution/requestApproval","params":{}}"#;
                        self.sent.extend(frame(1, foreign, true));
                        self.phase = Phase::Refusal;
                    }
                },
                Phase::Refusal => {
                    let padding = "x".repeat(200);
                    let last = format!(r#"{{"id":1,"result":{{"ok":true,"padding":"{padding}"}}}}"#);
                    self.sent.extend(frame(1, last.as_bytes(), true));
                    self.phase = Phase::Over;
                }
                _ => panic!("unexpected message"),
            }
        }
    }

    fn perform(&mut self, request: Request) -> Reply {
        match request {
            Request::OpenSocket => Reply::Done,
            Request::Connect(path) => {
                assert_eq!(path, "/run/control.sock");
                Reply::Connect(Attempt::Connected)
            }
            Request::Random(count) => Reply::Bytes((0..count).map(|i| (i * 37 + 11) as u8).collect()),
            Request::Remaining => Reply::Number(self.deadline.saturating_sub(self.now)),
            Request::WriteSome { bytes, .. } => {
                let count = usize::min(bytes.len(), 5);
                self.received.extend_from_slice(&bytes[..count]);
                self.react();
                Reply::Number(count as u64)
            }
            Request::ReadSome { limit, timeout } => {
                if self.sent.is_empty() {
                    self.now += timeout;
                    let detail = "timed out".to_owned();
                    return Reply::Socket { trouble: Trouble::TimedOut, detail };
                }
                let slow = self.mode == Mode::Trickle && self.phase == Phase::Over;
                if slow {
                    self.now += 10 * MILLISECOND;
                }
                let count = usize::min(usize::min(limit, self.sent.len()), if slow { 1 } else { 3 });
                Reply::Bytes(self.sent.drain(..count).collect())
            }
            Request::Send(message) => {
                let bytes = write_line(&message).into_bytes();
                match self.drive(|log, at| send_frame(1, &bytes, log, at)) {
                    Ok(()) => Reply::Done,
                    Err(error) => Reply::Failed(error),
                }
            }
            Request::Receive => match self.drive(|log, at| receive_text(log, at)) {
                Ok(payload) => match read_message(&payload) {
                    Ok(message) => Reply::Message(message),
                    Err(error) => Reply::Failed(error),
                },
                Err(error) => Reply::Failed(error),
            },
            _ => panic!("unexpected request"),
        }
    }

    fn drive<T>(
        &mut self,
        step: impl Fn(&Vec<Reply>, &mut usize) -> Result<T, Halt>,
    ) -> Result<T, Error> {
        let mut log = Vec::new();
        loop {
            let mut at = 0;
            match step(&log, &mut at) {
                Ok(value) => return Ok(value),
                Err(Halt::Fail(error)) => return Err(error),
                Err(Halt::Ask(request)) => {
                    let reply = self.perform(request);
                    log.push(reply);
                }
            }
        }
    }

    fn connect(&mut self) -> Result<ControlClient, Error> {
        self.deadline = 1_000 * MILLISECOND;
        self.drive(|log, at| ControlClient::connect("/run/control.sock", 108, 0, log, at))
    }

    fn request(&mut self, client: &mut ControlClient, method: &str) -> Result<Json, Error> {
        let id = client.next_request().ok().unwrap();
        self.deadline = client.operation_deadline(self.now)?;
        let client = *client;
        self.drive(|log, at| client.request(id, method, Json::Object(vec![]), log, at))
    }
}

#[test]
fn sha1_matches_rfc_websocket_example() {
    assert_eq!(websocket_accept("dGhlIHNhbXBsZSBub25jZQ=="), "s3pPLMBiTxaQ9kYGzzhZRbK+xOo=");
}

#[test]
fn digests_are_the_standard_ones() {
    let hex = |bytes: &[u8]| -> String {
        sha1(&bytes.to_vec()).iter().map(|byte| format!("{byte:02x}")).collect()
    };
    assert_eq!(hex(b""), "da39a3ee5e6b4b0d3255bfef95601890afd80709");
    assert_eq!(hex(b"abc"), "a9993e364706816aba3e25717850c26c9cd0d89d");
    assert_eq!(hex(&[b'a'; 119]).len(), 40);
}

#[test]
fn exchanges_masked_json_across_fragmented_frames_and_rejects_server_requests() {
    let mut server = Server::start(Mode::Exchange);
    let mut client = server.connect().ok().unwrap();
    let result = server.request(&mut client, "account/rateLimits/read").ok().unwrap();
    assert_eq!(result.bool_at("ok"), Some(true));
    assert_eq!(result.text_at("padding").unwrap().len(), 200);

    assert!(server.handshake.starts_with("GET / HTTP/1.1\r\n"));
    assert_eq!(server.header("Upgrade"), "websocket");
    assert_eq!(server.header("Sec-WebSocket-Version"), "13");
    assert_eq!(server.pong, b"health");
    assert!(server.messages[0].text_at_is("method", "initialize"));
    let parameters = server.messages[0].get("params").unwrap();
    let capabilities = parameters.get("capabilities").unwrap();
    assert_eq!(capabilities.bool_at("experimentalApi"), Some(true));
    assert!(server.messages[1].text_at_is("method", "initialized"));
    assert!(server.messages[2].text_at_is("method", "account/rateLimits/read"));
    assert!(server.messages[3].text_at_is("id", "approval-1"));
    let error = server.messages[3].get("error").unwrap();
    assert_eq!(error.integer_at("code"), Some(-32601));
}

#[test]
fn rejects_an_invalid_upgrade_accept() {
    let mut server = Server::start(Mode::BadAccept);
    let error = server.connect().err().expect("invalid accept should fail");
    assert!(matches!(&error, Error::Protocol(message) if message.contains("upgrade response")));
}

#[test]
fn enforces_response_size_before_allocating_payload() {
    let mut server = Server::start(Mode::Oversized);
    let mut client = server.connect().ok().unwrap();
    let error = server.request(&mut client, "account/read").err().unwrap();
    assert!(matches!(&error, Error::Protocol(message) if message.contains("oversized")));
}

#[test]
fn applies_request_timeout_to_socket_reads() {
    let mut server = Server::start(Mode::Timeout);
    let mut client = server.connect().ok().unwrap();
    client.set_timeout(25 * MILLISECOND);
    assert!(matches!(server.request(&mut client, "account/read"), Err(Error::Timeout)));
}

#[test]
fn absolute_deadline_stops_a_trickling_frame() {
    let mut server = Server::start(Mode::Trickle);
    let mut client = server.connect().ok().unwrap();
    client.set_timeout(25 * MILLISECOND);
    let started = server.now;
    assert!(matches!(server.request(&mut client, "account/read"), Err(Error::Timeout)));
    assert!(server.now - started < 150 * MILLISECOND);
}

#[test]
fn an_operation_ends_with_its_timeout_or_the_deadline() {
    let mut client = ControlClient { next_id: i64::MAX, timeout: 10, deadline: None };
    assert_eq!(client.operation_deadline(5).ok(), Some(15));
    client.set_deadline(12);
    assert_eq!(client.operation_deadline(5).ok(), Some(12));
    assert!(matches!(client.operation_deadline(12), Err(Error::Timeout)));
    assert!(matches!(client.next_request(), Err(Error::Protocol(_))));
}

#[test]
fn a_path_that_does_not_fit_a_socket_address_is_refused() {
    let mut server = Server::start(Mode::Exchange);
    let error = server
        .drive(|log, at| ControlClient::connect("/run/control.sock", 17, 0, log, at))
        .err()
        .unwrap();
    assert!(matches!(&error, Error::Protocol(text) if text.contains("too long")));
}

#[test]
fn an_upgrade_is_checked_in_every_part() {
    let request = upgrade_request("dGhlIHNhbXBsZSBub25jZQ==");
    assert!(request.contains("Sec-WebSocket-Key: dGhlIHNhbXBsZSBub25jZQ==\r\n"));
    assert!(request.ends_with("\r\n\r\n"));
    let answer = "HTTP/1.1 101 Switching Protocols\r\nupgrade: WebSocket\r\n\
                  connection: keep-alive, Upgrade\r\n\
                  sec-websocket-accept: s3pPLMBiTxaQ9kYGzzhZRbK+xOo=\r\n\r\n";
    let key = "dGhlIHNhbXBsZSBub25jZQ==";
    assert!(validate_upgrade(&answer.as_bytes().to_vec(), key).is_ok());
    for (good, bad) in [(" 101 ", " 200 "), ("WebSocket", "h2c"), ("Upgrade\r", "close\r")] {
        let broken = answer.replace(good, bad);
        assert!(validate_upgrade(&broken.into_bytes(), key).is_err());
    }
    assert!(header_has_token("keep-alive, Upgrade", "upgrade"));
    assert!(!header_has_token("keep-alive", "upgrade"));
    assert_eq!(lines("a\r\nb\n"), vec!["a".to_owned(), "b\n".to_owned()]);
}

#[test]
fn payloads_are_checked() {
    assert!(validate_close_payload(&vec![]).is_ok());
    assert!(validate_close_payload(&vec![3]).is_err());
    assert!(validate_close_payload(&vec![3, 232, b'x']).is_ok());
    assert!(validate_close_payload(&vec![3, 232, 0xff]).is_err());
    assert!(valid_text(b"text".to_vec()).is_ok());
    assert!(valid_text(vec![0xff]).is_err());
    let mut message = b"a".to_vec();
    assert!(append_payload(&mut message, &b"b".to_vec()).is_ok());
    assert_eq!(message, b"ab");
    assert!(read_message(&b"{".to_vec()).is_err());
}

#[test]
fn trouble_with_a_socket_is_a_failure() {
    assert!(matches!(socket_error(Trouble::TimedOut, ""), Error::Timeout));
    assert!(matches!(socket_error(Trouble::WouldBlock, ""), Error::Timeout));
    assert!(matches!(socket_error(Trouble::UnexpectedEof, ""), Error::Protocol(_)));
    let error = socket_error(Trouble::Other, "broken pipe");
    assert_eq!(error.text(), "app-server control socket: broken pipe");
}

#[test]
fn a_message_with_line_ends_in_it_arrives_as_one_line() {
    let text = "first\nsecond\r\n\u{2028}\"third\" \\ \u{1}";
    let written = write_line(&Json::List(vec![Json::Text(text.to_owned()), Json::Unsigned(7)]));
    assert!(!written.contains('\n') && !written.contains('\r'));

    let mut reader = LineReader::new();
    let (lines, oversized) = reader.feed(&format!("{written}\n").into_bytes());

    assert!(!oversized);
    assert!(reader.buffer.is_empty());
    assert_eq!(lines, vec![format!("{written}\n").into_bytes()]);
    assert!(matches!(read_line(&lines[0]), Ok(Json::List(items))
        if matches!(&items[..], [Json::Text(found), Json::Unsigned(7)] if found == text)));
}

#[test]
fn output_is_taken_apart_into_lines_as_it_comes() {
    let mut reader = LineReader::new();
    assert_eq!(reader.feed(&b"{\"id\"".to_vec()), (vec![], false));
    assert_eq!(reader.feed(&b":1}\n \t\r\n{}".to_vec()), (vec![b"{\"id\":1}\n".to_vec()], false));
    assert_eq!(reader.buffer, b"{}".to_vec());
    assert_eq!(reader.feed(&b"\n[]\n".to_vec()), (vec![b"{}\n".to_vec(), b"[]\n".to_vec()], false));
}

#[test]
fn a_line_longer_than_a_message_is_given_up() {
    let mut reader = LineReader::new();
    assert_eq!(reader.feed(&vec![b'1'; MAX_MESSAGE_SIZE]), (vec![], false));
    assert_eq!(reader.feed(&b"1".to_vec()), (vec![], true));

    let mut longest = vec![b'1'; MAX_MESSAGE_SIZE - 1];
    longest.push(b'\n');
    assert_eq!(LineReader::new().feed(&longest), (vec![longest.clone()], false));
}

#[test]
fn only_requests_begin_the_wait_for_an_answer() {
    assert!(expects_answer(&json(br#"{"id":1,"method":"thread/list"}"#)));
    assert!(!expects_answer(&json(br#"{"method":"initialized"}"#)));
    assert!(!expects_answer(&json(br#"{"id":1,"error":{"code":-32601}}"#)));
}
