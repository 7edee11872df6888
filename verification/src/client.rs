//! Sans-IO NNTP client implementation.
//!
//! The client frames responses out of the bytes it is fed, parses them, and
//! keeps the protocol state (reader mode, authentication, selected group).
//! It performs no I/O itself.

use vstd::prelude::*;
use bytes::{BufMut, Bytes, BytesMut};
use crate::command::{Command, encode_spec};
use crate::error::{Error, ErrorV, Result};
use crate::response::{Response, ResponseV, parse_text};
use crate::response::decode::decoded_text;
use crate::search::{find_bytes, find_pattern, lemma_find_bytes, lemma_find_bytes_extend};

verus! {

#[verifier::external_type_specification]
#[verifier::external_body]
pub struct ExBytesMut(BytesMut);

#[verifier::external_type_specification]
#[verifier::external_body]
pub struct ExBytes(Bytes);

/// The bytes held by a `BytesMut` buffer.
pub uninterp spec fn buffer_contents(b: BytesMut) -> Seq<u8>;

/// The bytes held by a `Bytes` value.
pub uninterp spec fn bytes_contents(b: Bytes) -> Seq<u8>;

/// `BytesMut::new`: a new buffer holds no bytes.
#[verifier::external_body]
fn new_buffer() -> (r: BytesMut)
    ensures
        buffer_contents(r) == Seq::<u8>::empty(),
{
    BytesMut::new()
}

/// `BufMut::put_slice` on `BytesMut`: the slice is appended to the buffer.
/// The buffer's capacity cannot pass `isize::MAX`, so the total is bounded.
#[verifier::external_body]
fn buffer_put(b: &mut BytesMut, data: &[u8])
    requires
        buffer_contents(*old(b)).len() + data@.len() <= isize::MAX,
    ensures
        buffer_contents(*final(b)) == buffer_contents(*old(b)) + data@,
{
    b.put_slice(data)
}

/// `AsRef<[u8]>` for `BytesMut`: the buffered bytes as a slice.
#[verifier::external_body]
fn buffer_bytes(b: &BytesMut) -> (r: &[u8])
    ensures
        r@ == buffer_contents(*b),
{
    b.as_ref()
}

/// `BytesMut::split_to`: the first `at` bytes leave the buffer and are
/// returned (copied into a `Vec`); the rest stays. It panics past the end,
/// hence the bound.
#[verifier::external_body]
fn buffer_split_to(b: &mut BytesMut, at: usize) -> (r: Vec<u8>)
    requires
        at <= buffer_contents(*old(b)).len(),
    ensures
        r@ == buffer_contents(*old(b)).take(at as int),
        buffer_contents(*final(b)) == buffer_contents(*old(b)).skip(at as int),
{
    b.split_to(at).to_vec()
}

/// `Bytes::from(Vec<u8>)`: the same bytes, without copying.
#[verifier::external_body]
fn bytes_from_vec(v: Vec<u8>) -> (r: Bytes)
    ensures
        bytes_contents(r) == v@,
{
    Bytes::from(v)
}

/// Protocol state of a client.
pub enum StateV {
    /// Initial state after connection
    Connected,
    /// Waiting for a specific response
    WaitingForResponse,
    /// Waiting for the reply to LISTGROUP, whose 211 reply lists article
    /// numbers over several lines
    Listing,
    /// In reader mode
    Reader,
    /// Authenticated
    Authenticated,
    /// Group selected
    GroupSelected(Seq<char>),
    /// Posting mode
    Posting,
    /// Connection closed
    Closed,
}

/// What a client is: its protocol state and the bytes received but not yet
/// decoded.
pub struct ClientV {
    pub state: StateV,
    pub buffered: Seq<u8>,
}

#[derive(Debug, Clone)]
enum ClientState {
    Connected,
    WaitingForResponse,
    Listing,
    Reader,
    Authenticated,
    GroupSelected { group: String },
    Posting,
    Closed,
}

impl View for ClientState {
    type V = StateV;

    closed spec fn view(&self) -> StateV {
        match self {
            ClientState::Connected => StateV::Connected,
            ClientState::WaitingForResponse => StateV::WaitingForResponse,
            ClientState::Listing => StateV::Listing,
            ClientState::Reader => StateV::Reader,
            ClientState::Authenticated => StateV::Authenticated,
            ClientState::GroupSelected { group } => StateV::GroupSelected(group@),
            ClientState::Posting => StateV::Posting,
            ClientState::Closed => StateV::Closed,
        }
    }
}

/// The name `Client::state` gives a state.
pub open spec fn state_name(s: StateV) -> Seq<char> {
    match s {
        StateV::Connected => "connected"@,
        StateV::WaitingForResponse => "waiting"@,
        StateV::Listing => "waiting"@,
        StateV::Reader => "reader"@,
        StateV::Authenticated => "authenticated"@,
        StateV::GroupSelected(_) => "group_selected"@,
        StateV::Posting => "posting"@,
        StateV::Closed => "closed"@,
    }
}

/// Whether commands may be sent in this state.
pub open spec fn ready(s: StateV) -> bool {
    !(waiting(s) || s is Closed)
}

/// Whether the client waits for a reply.
pub open spec fn waiting(s: StateV) -> bool {
    s is WaitingForResponse || s is Listing
}

/// Whether this state counts as authenticated.
pub open spec fn authenticated(s: StateV) -> bool {
    s is Authenticated || s is GroupSelected
}

/// Whether a command needs a selected group (RFC 3977): LAST, NEXT, and OVER
/// or HDR without a range.
pub open spec fn needs_group(c: Command) -> bool {
    match c {
        Command::Last => true,
        Command::Next => true,
        Command::Over { range } => range is None,
        Command::Hdr { range, .. } => range is None,
        _ => false,
    }
}

/// Whether a command may be sent in this state.
pub open spec fn command_allowed(s: StateV, c: Command) -> bool {
    needs_group(c) ==> s is GroupSelected
}

/// The message of the error given for a command that needs a group.
pub open spec fn msg_no_group() -> Seq<char> {
    "No newsgroup has been selected"@
}

/// The state once a command has been sent.
pub open spec fn state_after_command(c: Command) -> StateV {
    match c {
        Command::Quit => StateV::Closed,
        Command::Post => StateV::Posting,
        Command::ListGroup(_) => StateV::Listing,
        _ => StateV::WaitingForResponse,
    }
}

/// The stable state a client returns to.
pub open spec fn ready_state(s: StateV) -> StateV {
    if authenticated(s) {
        StateV::Authenticated
    } else {
        StateV::Reader
    }
}

/// The state once a response has been received in state `s`.
pub open spec fn state_after_response(s: StateV, r: ResponseV) -> StateV {
    match r {
        ResponseV::ModeReader { .. } => StateV::Reader,
        ResponseV::AuthSuccess => StateV::Authenticated,
        ResponseV::GroupSelected { name, .. } => StateV::GroupSelected(name),
        ResponseV::PostAccepted => StateV::Posting,
        ResponseV::PostSuccess => ready_state(s),
        ResponseV::Quit => StateV::Closed,
        ResponseV::Error { code, .. } => if 400 <= code < 500 {
            if s is Listing {
                StateV::WaitingForResponse
            } else {
                s
            }
        } else if waiting(s) {
            ready_state(s)
        } else {
            s
        },
        _ => if waiting(s) {
            ready_state(s)
        } else {
            s
        },
    }
}

/// CR LF.
pub open spec fn crlf() -> Seq<u8> {
    seq![13u8, 10u8]
}

/// The end of a multi-line response: CR LF "." CR LF.
pub open spec fn terminator() -> Seq<u8> {
    seq![13u8, 10u8, 46u8, 13u8, 10u8]
}

/// Whether a byte is an ASCII digit.
pub open spec fn digit_byte(b: u8) -> bool {
    48 <= b <= 57
}

/// The status code that the first three bytes spell, if they are digits.
pub open spec fn status_code(d: Seq<u8>) -> Option<u16> {
    if d.len() >= 3 && digit_byte(d[0]) && digit_byte(d[1]) && digit_byte(d[2]) {
        Some(((d[0] - 48) * 100 + (d[1] - 48) * 10 + (d[2] - 48)) as u16)
    } else {
        None
    }
}

/// Whether a status code announces a multi-line response.
pub open spec fn multiline_code(code: u16) -> bool {
    ||| 100 <= code <= 110
    ||| 112 <= code <= 199
    ||| code == 215
    ||| 220 <= code <= 222
    ||| 224 <= code <= 225
    ||| code == 230
    ||| code == 231
}

/// Whether a reply with this code, received in state `s`, spans several
/// lines: a multi-line code, or 211 in reply to LISTGROUP.
pub open spec fn multiline_in(s: StateV, code: u16) -> bool {
    multiline_code(code) || (code == 211 && s is Listing)
}

/// The length of the complete response at the start of `buf`, received in
/// state `s`, if there is one: a status line of at least three bytes ended
/// by CR LF, and, when the reply spans several lines, everything up to and
/// including the first CR LF "." CR LF.
pub open spec fn frame_len(s: StateV, buf: Seq<u8>) -> Option<nat> {
    let e = find_bytes(buf, crlf(), 0);
    if e < 3 {
        None
    } else {
        match status_code(buf.take(3)) {
            None => None,
            Some(code) => if multiline_in(s, code) {
                let t = find_bytes(buf, terminator(), 0);
                if t < 0 {
                    None
                } else {
                    Some((t + 5) as nat)
                }
            } else {
                Some((e + 2) as nat)
            },
        }
    }
}

/// A complete response lies within the buffer and is not empty.
pub proof fn lemma_frame_within(s: StateV, buf: Seq<u8>)
    ensures
        frame_len(s, buf) matches Some(n) ==> 0 < n <= buf.len(),
{
    lemma_find_bytes(buf, crlf(), 0);
    lemma_find_bytes(buf, terminator(), 0);
}

/// Where a search for `p` succeeds, `p` stands there.
proof fn lemma_find_bytes_found(s: Seq<u8>, p: Seq<u8>, i: int)
    requires
        0 <= i,
        find_bytes(s, p, i) >= 0,
    ensures
        s.subrange(find_bytes(s, p, i), find_bytes(s, p, i) + p.len()) == p,
    decreases s.len() + 1 - i,
{
    if i + p.len() <= s.len() && s.subrange(i, i + p.len()) != p {
        lemma_find_bytes_found(s, p, i + 1);
    }
}

/// The status codes whose replies carry a multi-line block (RFC 3977):
/// 100-199 but 111 (DATE), 215 (LIST), 220 (ARTICLE), 221 (HEAD), 222
/// (BODY), 224 (OVER), 225 (HDR), 230 (NEWNEWS) and 231 (NEWGROUPS); no
/// other code does.
pub proof fn lemma_multiline_codes(code: u16)
    ensures
        multiline_code(code) <==> ((100 <= code < 200 && code != 111) || code == 215 || code == 220
            || code == 221 || code == 222 || code == 224 || code == 225 || code == 230 || code
            == 231),
{
}

/// A reply with a multi-line status code is complete only once the
/// CR LF "." CR LF terminator has arrived, and its frame runs through the
/// first such terminator, whatever state the client is in.
pub proof fn lemma_multiline_frame(s: StateV, buf: Seq<u8>, code: u16)
    requires
        status_code(buf.take(3)) == Some(code),
        (100 <= code < 200 && code != 111) || code == 215 || code == 220 || code == 221 || code
            == 222 || code == 224 || code == 225 || code == 230 || code == 231,
        find_bytes(buf, crlf(), 0) >= 3,
    ensures
        frame_len(s, buf) is Some <==> find_bytes(buf, terminator(), 0) >= 0,
        frame_len(s, buf) matches Some(n) ==> 5 <= n <= buf.len() && buf.subrange(n - 5, n as int)
            == terminator() && find_bytes(buf, terminator(), 0) == n - 5,
{
    lemma_find_bytes(buf, terminator(), 0);
    if find_bytes(buf, terminator(), 0) >= 0 {
        lemma_find_bytes_found(buf, terminator(), 0);
    }
}

/// A reply with any other status code (211 in reply to LISTGROUP aside) is
/// one line: its frame is the status line through its first CR LF,
/// whatever follows.
pub proof fn lemma_single_line_frame(s: StateV, buf: Seq<u8>, code: u16)
    requires
        status_code(buf.take(3)) == Some(code),
        !((100 <= code < 200 && code != 111) || code == 215 || code == 220 || code == 221 || code
            == 222 || code == 224 || code == 225 || code == 230 || code == 231),
        !(code == 211 && s is Listing),
        find_bytes(buf, crlf(), 0) >= 3,
    ensures
        frame_len(s, buf) == Some((find_bytes(buf, crlf(), 0) + 2) as nat),
        buf.subrange(find_bytes(buf, crlf(), 0), find_bytes(buf, crlf(), 0) + 2) == crlf(),
{
    lemma_find_bytes_found(buf, crlf(), 0);
}

/// Once the buffer holds a complete response, more bytes arriving do not
/// change it: the same response is framed, of the same length.
pub proof fn lemma_frame_stable(s: StateV, buf: Seq<u8>, more: Seq<u8>)
    requires
        frame_len(s, buf) is Some,
    ensures
        frame_len(s, buf + more) == frame_len(s, buf),
        (buf + more).take(frame_len(s, buf)->0 as int) == buf.take(frame_len(s, buf)->0 as int),
{
    let t = buf + more;
    lemma_frame_within(s, buf);
    lemma_find_bytes_extend(buf, more, crlf(), 0);
    assert(t.take(3) =~= buf.take(3));
    if find_bytes(buf, terminator(), 0) >= 0 {
        lemma_find_bytes_extend(buf, more, terminator(), 0);
    }
    let n = frame_len(s, buf)->0;
    assert(t.take(n as int) =~= buf.take(n as int));
}

/// Sans-IO NNTP client.
///
/// This client handles protocol logic without performing any I/O operations.
/// Users must handle network connections and data transmission separately.
pub struct Client {
    read_buffer: BytesMut,
    state: ClientState,
}

impl View for Client {
    type V = ClientV;

    closed spec fn view(&self) -> ClientV {
        ClientV { state: self.state@, buffered: buffer_contents(self.read_buffer) }
    }
}

impl Default for Client {
    fn default() -> (r: Self)
        ensures
            r@.state == StateV::Connected,
            r@.buffered == Seq::<u8>::empty(),
    {
        Self::new()
    }
}

/// Find the position of the first CRLF sequence in the buffer.
pub fn find_crlf(data: &[u8]) -> (r: Option<usize>)
    ensures
        match r {
            Some(i) => find_bytes(data@, crlf(), 0) == i as int,
            None => find_bytes(data@, crlf(), 0) == -1,
        },
{
    let mut p: Vec<u8> = Vec::new();
    p.push(13u8);
    p.push(10u8);
    assert(p@ =~= crlf());
    find_pattern(data, p.as_slice())
}

/// Find the position of the multiline terminator "\r\n.\r\n" in the buffer.
pub fn find_terminator(data: &[u8]) -> (r: Option<usize>)
    ensures
        match r {
            Some(i) => find_bytes(data@, terminator(), 0) == i as int,
            None => find_bytes(data@, terminator(), 0) == -1,
        },
{
    let mut p: Vec<u8> = Vec::new();
    p.push(13u8);
    p.push(10u8);
    p.push(46u8);
    p.push(13u8);
    p.push(10u8);
    assert(p@ =~= terminator());
    find_pattern(data, p.as_slice())
}

/// Parse a 3-digit ASCII status code from the first three bytes.
pub fn parse_status_code(data: &[u8]) -> (r: Option<u16>)
    ensures
        r == status_code(data@),
{
    if data.len() < 3 {
        return None;
    }
    let (a, b, c) = (data[0], data[1], data[2]);
    if !(48 <= a && a <= 57) || !(48 <= b && b <= 57) || !(48 <= c && c <= 57) {
        return None;
    }
    let code = (a - 48) as u16 * 100 + (b - 48) as u16 * 10 + (c - 48) as u16;
    Some(code)
}

/// Whether a status code announces a multi-line response.
pub fn is_multiline_response(code: u16) -> (r: bool)
    ensures
        r == multiline_code(code),
{
    (100 <= code && code <= 110) || (112 <= code && code <= 199) || code == 215 || (220 <= code
        && code <= 222) || (224 <= code && code <= 225) || code == 230 || code == 231
}

impl Client {
    /// Create a new NNTP client instance.
    pub fn new() -> (r: Self)
        ensures
            r@.state == StateV::Connected,
            r@.buffered == Seq::<u8>::empty(),
    {
        Self { read_buffer: new_buffer(), state: ClientState::Connected }
    }

    /// Encode a command for transmission to the server.
    ///
    /// Returns the bytes that should be sent to the server. A command that
    /// needs a selected group (LAST, NEXT, OVER or HDR without a range) is
    /// refused with a 412 protocol error when none is selected, and the state
    /// stays as it was; otherwise the state moves on for the command, and the
    /// result is what `Command::encode` gives.
    pub fn encode_command(&mut self, command: Command) -> (r: Result<Bytes>)
        ensures
            final(self)@.buffered == old(self)@.buffered,
            !command_allowed(old(self)@.state, command) ==> final(self)@.state == old(self)@.state
                && (r matches Err(e) && e@ == (ErrorV::Protocol { code: 412, message: msg_no_group() })),
            command_allowed(old(self)@.state, command) ==> final(self)@.state
                == state_after_command(command) && match encode_spec(command) {
                Ok(b) => r matches Ok(x) && bytes_contents(x) == b,
                Err(e) => r matches Err(x) && x@ == e,
            },
    {
        match self.update_state_for_command(&command) {
            Ok(()) => {},
            Err(e) => {
                return Err(e);
            },
        }
        match command.encode() {
            Ok(bytes) => Ok(bytes_from_vec(bytes)),
            Err(e) => Err(e),
        }
    }

    /// Feed received data from the server into the client.
    ///
    /// Call this method with data received from the network connection.
    pub fn feed_bytes(&mut self, data: &[u8])
        requires
            old(self)@.buffered.len() + data@.len() <= isize::MAX,
        ensures
            final(self)@.state == old(self)@.state,
            final(self)@.buffered == old(self)@.buffered + data@,
    {
        buffer_put(&mut self.read_buffer, data);
    }

    /// The number of bytes received and not yet decoded.
    pub fn buffered_len(&self) -> (r: usize)
        ensures
            r == self@.buffered.len(),
    {
        buffer_bytes(&self.read_buffer).len()
    }

    /// Try to decode a complete response from buffered data.
    ///
    /// Returns `Ok(Some(response))` if a complete response is available,
    /// `Ok(None)` if more data is needed, or an error if parsing fails. A
    /// 211 reply to LISTGROUP is complete only with its final dot line.
    /// A complete response leaves the buffer whether or not it parses; the
    /// state moves on only for a response that parses.
    pub fn decode_response(&mut self) -> (r: Result<Option<Response>>)
        ensures
            match frame_len(old(self)@.state, old(self)@.buffered) {
                None => r matches Ok(None) && final(self)@ == old(self)@,
                Some(n) => final(self)@.buffered == old(self)@.buffered.skip(n as int) && match parse_text(
                    decoded_text(old(self)@.buffered.take(n as int)),
                ) {
                    Ok(resp) => r matches Ok(Some(x)) && x@ == resp && final(self)@.state
                        == state_after_response(old(self)@.state, resp),
                    Err(e) => r matches Err(x) && x@ == e && final(self)@.state == old(self)@.state,
                },
            },
    {
        match self.extract_complete_response() {
            None => Ok(None),
            Some(data) => {
                let response = match Response::parse(data.as_slice()) {
                    Ok(resp) => resp,
                    Err(e) => {
                        return Err(e);
                    },
                };
                self.update_state_for_response(&response);
                Ok(Some(response))
            },
        }
    }

    /// Get the current client state.
    pub fn state(&self) -> (r: &str)
        ensures
            r@ == state_name(self@.state),
    {
        match self.state {
            ClientState::Connected => "connected",
            ClientState::WaitingForResponse => "waiting",
            ClientState::Listing => "waiting",
            ClientState::Reader => "reader",
            ClientState::Authenticated => "authenticated",
            ClientState::GroupSelected { .. } => "group_selected",
            ClientState::Posting => "posting",
            ClientState::Closed => "closed",
        }
    }

    /// Check if the client is ready to send commands.
    pub fn is_ready(&self) -> (r: bool)
        ensures
            r == ready(self@.state),
    {
        match self.state {
            ClientState::WaitingForResponse | ClientState::Listing | ClientState::Closed => false,
            _ => true,
        }
    }

    /// Get the currently selected group, if any.
    pub fn current_group(&self) -> (r: Option<&str>)
        ensures
            match r {
                Some(g) => self@.state == StateV::GroupSelected(g@),
                None => !(self@.state is GroupSelected),
            },
    {
        match &self.state {
            ClientState::GroupSelected { group } => Some(group.as_str()),
            _ => None,
        }
    }

    /// Check if the client is authenticated.
    pub fn is_authenticated(&self) -> (r: bool)
        ensures
            r == authenticated(self@.state),
    {
        match self.state {
            ClientState::Authenticated | ClientState::GroupSelected { .. } => true,
            _ => false,
        }
    }

    /// Take the first complete response out of the buffer.
    fn extract_complete_response(&mut self) -> (r: Option<Vec<u8>>)
        ensures
            final(self)@.state == old(self)@.state,
            match frame_len(old(self)@.state, old(self)@.buffered) {
                None => r is None && final(self)@.buffered == old(self)@.buffered,
                Some(n) => r matches Some(v) && v@ == old(self)@.buffered.take(n as int)
                    && final(self)@.buffered == old(self)@.buffered.skip(n as int),
            },
    {
        let ghost buf = buffer_contents(self.read_buffer);
        let response_len: usize;
        {
            let data = buffer_bytes(&self.read_buffer);
            assert(data@.len() == data.len());
            let end_pos = match find_crlf(data) {
                None => {
                    return None;
                },
                Some(p) => p,
            };
            if end_pos < 3 {
                return None;
            }
            proof {
                lemma_find_bytes(buf, crlf(), 0);
            }
            let head = vstd::slice::slice_subrange(data, 0, 3);
            assert(head@ =~= buf.take(3));
            let code = match parse_status_code(head) {
                None => {
                    return None;
                },
                Some(c) => c,
            };
            let listing = match self.state {
                ClientState::Listing => true,
                _ => false,
            };
            if is_multiline_response(code) || (code == 211 && listing) {
                match find_terminator(data) {
                    None => {
                        return None;
                    },
                    Some(t) => {
                        proof {
                            lemma_find_bytes(buf, terminator(), 0);
                        }
                        response_len = t + 5;
                    },
                }
            } else {
                response_len = end_pos + 2;
            }
        }
        Some(buffer_split_to(&mut self.read_buffer, response_len))
    }

    /// Validate that a command can be executed in the current state.
    fn validate_command_requirements(&self, command: &Command) -> (r: Result<()>)
        ensures
            command_allowed(self@.state, *command) ==> r is Ok,
            !command_allowed(self@.state, *command) ==> (r matches Err(e) && e@ == (ErrorV::Protocol {
                code: 412,
                message: msg_no_group(),
            })),
    {
        let needs = match command {
            Command::Last | Command::Next => true,
            Command::Over { range } => range.is_none(),
            Command::Hdr { range, .. } => range.is_none(),
            _ => false,
        };
        if needs && self.current_group().is_none() {
            return Err(
                Error::Protocol { code: 412, message: "No newsgroup has been selected".to_owned() },
            );
        }
        Ok(())
    }

    fn update_state_for_command(&mut self, command: &Command) -> (r: Result<()>)
        ensures
            final(self)@.buffered == old(self)@.buffered,
            command_allowed(old(self)@.state, *command) ==> r is Ok && final(self)@.state
                == state_after_command(*command),
            !command_allowed(old(self)@.state, *command) ==> final(self)@.state == old(self)@.state
                && (r matches Err(e) && e@ == (ErrorV::Protocol { code: 412, message: msg_no_group() })),
    {
        match self.validate_command_requirements(command) {
            Ok(()) => {},
            Err(e) => {
                return Err(e);
            },
        }
        match command {
            Command::Quit => {
                self.state = ClientState::Closed;
            },
            Command::Post => {
                self.state = ClientState::Posting;
            },
            Command::ListGroup(_) => {
                self.state = ClientState::Listing;
            },
            _ => {
                self.state = ClientState::WaitingForResponse;
            },
        }
        Ok(())
    }

    /// The stable state to return to: authenticated or reader.
    fn ready_state(&self) -> (r: ClientState)
        ensures
            r@ == ready_state(self@.state),
    {
        if self.is_authenticated() {
            ClientState::Authenticated
        } else {
            ClientState::Reader
        }
    }

    fn update_state_for_response(&mut self, response: &Response)
        ensures
            final(self)@.buffered == old(self)@.buffered,
            final(self)@.state == state_after_response(old(self)@.state, response@),
    {
        let waiting = match self.state {
            ClientState::WaitingForResponse | ClientState::Listing => true,
            _ => false,
        };
        let listing = match self.state {
            ClientState::Listing => true,
            _ => false,
        };
        match response {
            Response::ModeReader { .. } => {
                self.state = ClientState::Reader;
            },
            Response::AuthSuccess => {
                self.state = ClientState::Authenticated;
            },
            Response::GroupSelected { name, .. } => {
                self.state = ClientState::GroupSelected { group: name.clone() };
            },
            Response::PostAccepted => {
                self.state = ClientState::Posting;
            },
            Response::PostSuccess => {
                self.state = self.ready_state();
            },
            Response::Quit => {
                self.state = ClientState::Closed;
            },
            Response::Error { code, .. } => {
                if *code >= 400 && *code < 500 {
                    // Temporary errors keep the current state (still waiting).
                    if listing {
                        self.state = ClientState::WaitingForResponse;
                    }
                } else if waiting {
                    self.state = self.ready_state();
                }
            },
            _ => {
                if waiting {
                    self.state = self.ready_state();
                }
            },
        }
    }
}

} // verus!
