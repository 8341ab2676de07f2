//! The tunnel's wire format: every WebSocket frame is one `Message`, a
//! MessagePack array of the command's name and the payload bytes. Payload
//! records are MessagePack arrays of their fields, in declaration order.
use vstd::prelude::*;
use vstd::utf8::{decode_utf8, encode_utf8, valid_utf8, encode_utf8_valid_utf8, encode_utf8_decode_utf8, decode_utf8_encode_utf8};
use crate::msgpack::{
    MAX_FRAME, occurs_at, lemma_occurs_split, enc_uint, enc_bool, enc_str, enc_bytes, array_header,
    lemma_byte_items_len, lemma_byte_items_len_bound, lemma_enc_bytes_injective, put_uint, read_uint, put_bool, read_bool, put_str,
    read_str, put_array_header, read_array_header, put_bytes, read_bytes,
};

verus! {

/// Transport protocol of a tunnel target.
#[derive(Debug, Clone, Copy, PartialEq, Eq, Structural)]
pub enum Protocol {
    TCP,
    UDP,
}

/// Kind of a message.
#[derive(Debug, Clone, Copy, PartialEq, Eq, Structural)]
pub enum Command {
    /// Plaintext connect request (not accepted by the gateway).
    Connect,
    /// Gateway to client: whether the target was reached.
    ConnectResponse,
    /// Metadata query, answered in plaintext.
    GetServerInfo,
    /// Answer to `GetServerInfo`.
    ServerInfoResponse,
    /// Tunneled bytes, in either direction.
    Data,
    /// Cooperative close, in either direction.
    Disconnect,
    /// Application-level liveness probe carrying a timestamp.
    Ping,
    /// Echo of a `Ping` payload.
    Pong,
    /// Traffic statistics report.
    Stats,
    /// Client to gateway: first frame of a secure session.
    SecureConnect,
}

/// Why bytes could not be encoded or decoded.
#[derive(Debug, Clone, Copy, PartialEq, Eq, Structural)]
pub enum WireError {
    /// The frame or record is larger than `MAX_FRAME` bytes.
    FrameTooLarge,
    /// The bytes are not the encoding of any value of the expected type.
    Malformed,
}

/// The name that stands for a protocol on the wire.
pub open spec fn protocol_name(p: Protocol) -> Seq<u8> {
    match p {
        Protocol::TCP => seq![84u8, 67, 80],
        Protocol::UDP => seq![85u8, 68, 80],
    }
}

/// The name that stands for a command on the wire.
pub open spec fn command_name(c: Command) -> Seq<u8> {
    match c {
        Command::Connect => seq![67u8, 111, 110, 110, 101, 99, 116],
        Command::ConnectResponse => seq![67u8, 111, 110, 110, 101, 99, 116, 82, 101, 115, 112, 111, 110, 115, 101],
        Command::GetServerInfo => seq![71u8, 101, 116, 83, 101, 114, 118, 101, 114, 73, 110, 102, 111],
        Command::ServerInfoResponse => seq![83u8, 101, 114, 118, 101, 114, 73, 110, 102, 111, 82, 101, 115, 112, 111, 110, 115, 101],
        Command::Data => seq![68u8, 97, 116, 97],
        Command::Disconnect => seq![68u8, 105, 115, 99, 111, 110, 110, 101, 99, 116],
        Command::Ping => seq![80u8, 105, 110, 103],
        Command::Pong => seq![80u8, 111, 110, 103],
        Command::Stats => seq![83u8, 116, 97, 116, 115],
        Command::SecureConnect => seq![83u8, 101, 99, 117, 114, 101, 67, 111, 110, 110, 101, 99, 116],
    }
}

/// A string whose characters are `t`.
pub open spec fn enc_text(t: Seq<char>) -> Seq<u8> {
    enc_str(encode_utf8(t))
}

proof fn lemma_command_name_injective()
    ensures
        forall|a: Command, b: Command| #[trigger] command_name(a) == #[trigger] command_name(b) ==> a == b,
{
    assert forall|a: Command, b: Command| #[trigger] command_name(a) == #[trigger] command_name(b) implies a == b by {
        let (x, y) = (command_name(a), command_name(b));
        if x == y {
            assert(x.len() == y.len());
            assert(x[0] == y[0]);
            if x.len() > 1 {
                assert(x[1] == y[1]);
            }
        }
    }
}

fn protocol_name_bytes(p: Protocol) -> (r: Vec<u8>)
    ensures
        r@ == protocol_name(p),
{
    let r = match p {
        Protocol::TCP => vec![84u8, 67, 80],
        Protocol::UDP => vec![85u8, 68, 80],
    };
    assert(r@ =~= protocol_name(p));
    r
}

fn command_name_bytes(c: Command) -> (r: Vec<u8>)
    ensures
        r@ == command_name(c),
{
    let r = match c {
        Command::Connect => vec![67u8, 111, 110, 110, 101, 99, 116],
        Command::ConnectResponse => vec![67u8, 111, 110, 110, 101, 99, 116, 82, 101, 115, 112, 111, 110, 115, 101],
        Command::GetServerInfo => vec![71u8, 101, 116, 83, 101, 114, 118, 101, 114, 73, 110, 102, 111],
        Command::ServerInfoResponse => vec![83u8, 101, 114, 118, 101, 114, 73, 110, 102, 111, 82, 101, 115, 112, 111, 110, 115, 101],
        Command::Data => vec![68u8, 97, 116, 97],
        Command::Disconnect => vec![68u8, 105, 115, 99, 111, 110, 110, 101, 99, 116],
        Command::Ping => vec![80u8, 105, 110, 103],
        Command::Pong => vec![80u8, 111, 110, 103],
        Command::Stats => vec![83u8, 116, 97, 116, 115],
        Command::SecureConnect => vec![83u8, 101, 99, 117, 114, 101, 67, 111, 110, 110, 101, 99, 116],
    };
    assert(r@ =~= command_name(c));
    r
}

/// Whether `b[start..end]` holds exactly the bytes of `lit`.
fn slice_eq(b: &[u8], start: usize, end: usize, lit: &[u8]) -> (r: bool)
    requires
        start <= end <= b@.len(),
    ensures
        r == (b@.subrange(start as int, end as int) == lit@),
{
    if end - start != lit.len() {
        return false;
    }
    let mut i: usize = 0;
    while i < lit.len()
        invariant
            end - start == lit@.len(),
            start <= end <= b@.len(),
            i <= lit@.len(),
            forall|j: int| 0 <= j < i ==> b@[start + j] == lit@[j],
        decreases lit@.len() - i,
    {
        if b[start + i] != lit[i] {
            proof {
                assert(b@.subrange(start as int, end as int)[i as int] == b@[start + i]);
            }
            return false;
        }
        i = i + 1;
    }
    assert(b@.subrange(start as int, end as int) =~= lit@);
    true
}

fn protocol_from_name(b: &[u8], start: usize, end: usize) -> (r: Option<Protocol>)
    requires
        start <= end <= b@.len(),
    ensures
        r matches Some(p) ==> protocol_name(p) == b@.subrange(start as int, end as int),
        forall|p: Protocol| #[trigger] protocol_name(p) == b@.subrange(start as int, end as int) ==> r == Some(p),
{
    if slice_eq(b, start, end, protocol_name_bytes(Protocol::TCP).as_slice()) {
        proof {
            assert forall|p: Protocol| #[trigger] protocol_name(p) == b@.subrange(start as int, end as int) implies p == Protocol::TCP by {
                assert(protocol_name(p)[0] == protocol_name(Protocol::TCP)[0]);
            }
        }
        Some(Protocol::TCP)
    } else if slice_eq(b, start, end, protocol_name_bytes(Protocol::UDP).as_slice()) {
        Some(Protocol::UDP)
    } else {
        None
    }
}

fn command_from_name(b: &[u8], start: usize, end: usize) -> (r: Option<Command>)
    requires
        start <= end <= b@.len(),
    ensures
        r matches Some(c) ==> command_name(c) == b@.subrange(start as int, end as int),
        forall|c: Command| #[trigger] command_name(c) == b@.subrange(start as int, end as int) ==> r == Some(c),
{
    let all = vec![Command::Connect, Command::ConnectResponse, Command::GetServerInfo, Command::ServerInfoResponse, Command::Data, Command::Disconnect, Command::Ping, Command::Pong, Command::Stats, Command::SecureConnect];
    proof {
        lemma_command_name_injective();
    }
    let mut i: usize = 0;
    while i < all.len()
        invariant
            start <= end <= b@.len(),
            i <= all@.len(),
            forall|j: int| 0 <= j < i ==> command_name(#[trigger] all@[j]) != b@.subrange(start as int, end as int),
        decreases all@.len() - i,
    {
        if slice_eq(b, start, end, command_name_bytes(all[i]).as_slice()) {
            return Some(all[i]);
        }
        i = i + 1;
    }
    proof {
        assert forall|c: Command| #[trigger] command_name(c) != b@.subrange(start as int, end as int) by {
            match c {
                Command::Connect => { assert(all@[0] == c); },
                Command::ConnectResponse => { assert(all@[1] == c); },
                Command::GetServerInfo => { assert(all@[2] == c); },
                Command::ServerInfoResponse => { assert(all@[3] == c); },
                Command::Data => { assert(all@[4] == c); },
                Command::Disconnect => { assert(all@[5] == c); },
                Command::Ping => { assert(all@[6] == c); },
                Command::Pong => { assert(all@[7] == c); },
                Command::Stats => { assert(all@[8] == c); },
                Command::SecureConnect => { assert(all@[9] == c); },
            }
        }
    }
    None
}

/// The frame of a message with command `c` and payload `p`.
pub open spec fn enc_message(c: Command, p: Seq<u8>) -> Seq<u8> {
    array_header(2) + enc_str(command_name(c)) + enc_bytes(p)
}

/// Decoding gives back what was encoded: two messages whose frames are
/// equal, and which fit a frame, have the same command and payload. With
/// `Message::from_slice`, which returns the message that a frame encodes,
/// decoding the output of `Message::to_vec` yields the message that was
/// encoded.
pub proof fn lemma_message_round_trip(c1: Command, p1: Seq<u8>, c2: Command, p2: Seq<u8>)
    requires
        enc_message(c1, p1).len() <= MAX_FRAME,
        enc_message(c1, p1) == enc_message(c2, p2),
    ensures
        c1 == c2,
        p1 == p2,
{
    let e = enc_message(c1, p1);
    let (n1, n2) = (command_name(c1), command_name(c2));
    let (s1, s2) = (enc_str(n1), enc_str(n2));
    assert(e == array_header(2) + s1 + enc_bytes(p1));
    assert(e == array_header(2) + s2 + enc_bytes(p2));
    assert(e[1] == s1[0] && e[1] == s2[0]);
    assert(n1.len() == n2.len());
    assert(s1 =~= e.subrange(1, 1 + s1.len() as int));
    assert(s2 =~= e.subrange(1, 1 + s2.len() as int));
    assert(n1 =~= s1.subrange(1, s1.len() as int));
    assert(n2 =~= s2.subrange(1, s2.len() as int));
    lemma_command_name_injective();
    lemma_byte_items_len(p1);
    lemma_byte_items_len(p2);
    assert(enc_bytes(p1) =~= e.subrange(1 + s1.len() as int, e.len() as int));
    assert(enc_bytes(p2) =~= e.subrange(1 + s2.len() as int, e.len() as int));
    lemma_enc_bytes_injective(p1, p2);
}

/// One frame of the tunnel protocol.
#[derive(Debug, Clone)]
pub struct Message {
    pub command: Command,
    /// Raw tunneled bytes for `Data`, else the encoding of a payload
    /// record; sealed once a session key is in place.
    pub payload: Vec<u8>,
}

impl Message {
    pub fn new(command: Command, payload: Vec<u8>) -> (r: Message)
        ensures
            r.command == command,
            r.payload@ == payload@,
    {
        Message { command, payload }
    }

    /// The frame that carries this message.
    pub open spec fn wire(&self) -> Seq<u8> {
        enc_message(self.command, self.payload@)
    }

    /// Encodes the message as one frame.
    pub fn to_vec(&self) -> (r: Result<Vec<u8>, WireError>)
        ensures
            match r {
                Ok(b) => b@ == self.wire() && b@.len() <= MAX_FRAME,
                Err(e) => e == WireError::FrameTooLarge && self.wire().len() > MAX_FRAME,
            },
            self.payload@.len() <= MAX_FRAME / 2 - 16 ==> r is Ok,
    {
        proof {
            lemma_byte_items_len(self.payload@);
            lemma_byte_items_len_bound(self.payload@);
        }
        if self.payload.len() > MAX_FRAME {
            return Err(WireError::FrameTooLarge);
        }
        let mut out: Vec<u8> = Vec::new();
        put_array_header(&mut out, 2);
        let name = command_name_bytes(self.command);
        put_str(&mut out, name.as_slice());
        put_bytes(&mut out, self.payload.as_slice());
        assert(out@ =~= self.wire());
        if out.len() > MAX_FRAME {
            return Err(WireError::FrameTooLarge);
        }
        Ok(out)
    }

    /// Decodes one frame.
    pub fn from_slice(b: &[u8]) -> (r: Result<Message, WireError>)
        ensures
            r matches Ok(m) ==> m.wire() == b@,
            (r matches Err(e) && e == WireError::FrameTooLarge) <==> b@.len() > MAX_FRAME,
            forall|c: Command, p: Seq<u8>|
                b@ == #[trigger] enc_message(c, p) && b@.len() <= MAX_FRAME ==> (r matches Ok(m)
                    && m.command == c && m.payload@ == p),
    {
        if b.len() > MAX_FRAME {
            return Err(WireError::FrameTooLarge);
        }
        match read_message(b) {
            Some(m) => Ok(m),
            None => Err(WireError::Malformed),
        }
    }
}

fn read_message(b: &[u8]) -> (r: Option<Message>)
    requires
        b@.len() <= MAX_FRAME,
    ensures
        r matches Some(m) ==> m.wire() == b@,
        forall|c: Command, p: Seq<u8>|
            b@ == #[trigger] enc_message(c, p) ==> (r matches Some(m) && m.command == c && m.payload@ == p),
{
    let ghost s = b@;
    proof {
        assert forall|c: Command, p: Seq<u8>| s == #[trigger] enc_message(c, p) implies occurs_at(s, 0, array_header(2)) && occurs_at(s, 1, enc_str(command_name(c))) && occurs_at(s, 1 + enc_str(command_name(c)).len() as int, enc_bytes(p)) by {
            let x = array_header(2) + enc_str(command_name(c));
            assert(occurs_at(s, 0, x + enc_bytes(p))) by {
                assert(s.subrange(0, s.len() as int) =~= s);
            }
            lemma_occurs_split(s, 0, x, enc_bytes(p));
            lemma_occurs_split(s, 0, array_header(2), enc_str(command_name(c)));
        }
    }
    let (n, p0) = match read_array_header(b, 0) {
        Some(x) => x,
        None => { return None; },
    };
    if n != 2 {
        return None;
    }
    let (st, en) = match read_str(b, p0) {
        Some(x) => x,
        None => { return None; },
    };
    let command = match command_from_name(b, st, en) {
        Some(c) => c,
        None => { return None; },
    };
    let (payload, end) = match read_bytes(b, en) {
        Some(x) => x,
        None => { return None; },
    };
    if end != b.len() {
        return None;
    }
    let m = Message { command, payload };
    proof {
        let x = array_header(2) + enc_str(command_name(command));
        lemma_occurs_split(s, 0, array_header(2), enc_str(command_name(command)));
        lemma_occurs_split(s, 0, x, enc_bytes(payload@));
        assert(s.subrange(0, s.len() as int) =~= s);
    }
    Some(m)
}

/// Relies on `std::str::from_utf8`: it accepts exactly the valid UTF-8 byte
/// sequences, and the string it returns holds the characters they encode.
#[verifier::external_body]
fn text_from_utf8(b: &[u8], start: usize, end: usize) -> (r: Option<String>)
    requires
        start <= end <= b@.len(),
    ensures
        r is Some <==> valid_utf8(b@.subrange(start as int, end as int)),
        r matches Some(t) ==> t@ == decode_utf8(b@.subrange(start as int, end as int)),
{
    std::str::from_utf8(&b[start..end]).ok().map(str::to_owned)
}

fn put_text(out: &mut Vec<u8>, t: &String)
    requires
        encode_utf8(t@).len() < 0x1_0000_0000,
    ensures
        final(out)@ == old(out)@ + enc_text(t@),
{
    put_str(out, t.as_str().as_bytes());
}

/// The UTF-8 length of `t`, or `None` where it exceeds `MAX_FRAME`.
fn text_len(t: &String) -> (r: Option<usize>)
    ensures
        r matches Some(n) ==> n == encode_utf8(t@).len() && n <= MAX_FRAME,
        r is None ==> encode_utf8(t@).len() > MAX_FRAME,
{
    let n = t.as_str().as_bytes().len();
    if n > MAX_FRAME {
        None
    } else {
        Some(n)
    }
}

fn read_text(b: &[u8], pos: usize) -> (r: Option<(String, usize)>)
    requires
        pos <= b@.len(),
        b@.len() <= MAX_FRAME,
    ensures
        r matches Some((t, end)) ==> end == pos + enc_text(t@).len() && occurs_at(b@, pos as int, enc_text(t@)),
        forall|t: Seq<char>| #[trigger] occurs_at(b@, pos as int, enc_text(t)) ==> (r matches Some((x, end)) && x@ == t && end == pos + enc_text(t).len()),
{
    let (st, en) = match read_str(b, pos) {
        Some(x) => x,
        None => { return None; },
    };
    proof {
        assert forall|t: Seq<char>| #[trigger] occurs_at(b@, pos as int, enc_text(t)) implies b@.subrange(st as int, en as int) == encode_utf8(t) && valid_utf8(encode_utf8(t)) && decode_utf8(encode_utf8(t)) == t by {
            encode_utf8_valid_utf8(t);
            encode_utf8_decode_utf8(t);
        }
    }
    match text_from_utf8(b, st, en) {
        Some(t) => {
            proof {
                decode_utf8_encode_utf8(b@.subrange(st as int, en as int));
            }
            Some((t, en))
        },
        None => None,
    }
}

proof fn lemma_whole(s: Seq<u8>, e: Seq<u8>)
    ensures
        (occurs_at(s, 0, e) && e.len() == s.len()) <==> s == e,
{
    assert(s.subrange(0, s.len() as int) =~= s);
}

/// A record carried in a message payload, encoded as a MessagePack array of
/// its fields.
pub trait WireRecord: Sized + View {
    /// The encoding of a record whose view is `v`.
    spec fn enc(v: Self::V) -> Seq<u8>;

    fn to_wire(&self) -> (r: Result<Vec<u8>, WireError>)
        ensures
            match r {
                Ok(b) => b@ == Self::enc(self@) && b@.len() <= MAX_FRAME,
                Err(e) => e == WireError::FrameTooLarge && Self::enc(self@).len() > MAX_FRAME,
            },
    ;

    fn from_wire(b: &[u8]) -> (r: Result<Self, WireError>)
        ensures
            r matches Ok(x) ==> Self::enc(x@) == b@,
            (r matches Err(e) && e == WireError::FrameTooLarge) <==> b@.len() > MAX_FRAME,
            forall|v: Self::V| b@ == #[trigger] Self::enc(v) && b@.len() <= MAX_FRAME ==> (r matches Ok(x) && x@ == v),
    ;
}

impl Message {
    /// A message whose payload is the encoding of `payload`.
    pub fn from_payload<T: WireRecord>(command: Command, payload: &T) -> (r: Result<Message, WireError>)
        ensures
            match r {
                Ok(m) => m.command == command && m.payload@ == T::enc(payload@) && m.payload@.len() <= MAX_FRAME,
                Err(e) => e == WireError::FrameTooLarge && T::enc(payload@).len() > MAX_FRAME,
            },
    {
        let bytes = payload.to_wire()?;
        Ok(Message::new(command, bytes))
    }

    /// Decodes the payload as a record of type `T`.
    pub fn deserialize_payload<T: WireRecord>(&self) -> (r: Result<T, WireError>)
        ensures
            r matches Ok(x) ==> T::enc(x@) == self.payload@,
            (r matches Err(e) && e == WireError::FrameTooLarge) <==> self.payload@.len() > MAX_FRAME,
            forall|v: T::V| self.payload@ == #[trigger] T::enc(v) && self.payload@.len() <= MAX_FRAME ==> (r matches Ok(x) && x@ == v),
    {
        T::from_wire(self.payload.as_slice())
    }
}

/// Payload of `Ping` and `Pong`.
#[derive(Debug, Clone, Copy)]
pub struct PingPayload {
    /// Sender's clock, in milliseconds.
    pub timestamp: u64,
}

impl View for PingPayload {
    type V = u64;

    open spec fn view(&self) -> u64 {
        self.timestamp
    }
}

impl WireRecord for PingPayload {
    open spec fn enc(v: u64) -> Seq<u8> {
        array_header(1) + enc_uint(v)
    }

    fn to_wire(&self) -> (r: Result<Vec<u8>, WireError>) {
        let mut out: Vec<u8> = Vec::new();
        put_array_header(&mut out, 1);
        put_uint(&mut out, self.timestamp);
        assert(out@ =~= Self::enc(self@));
        Ok(out)
    }

    fn from_wire(b: &[u8]) -> (r: Result<Self, WireError>) {
        if b.len() > MAX_FRAME {
            return Err(WireError::FrameTooLarge);
        }
        let ghost s = b@;
        proof {
            assert forall|v: u64| s == #[trigger] Self::enc(v) implies occurs_at(s, 0, array_header(1)) && occurs_at(s, 1, enc_uint(v)) by {
                lemma_whole(s, Self::enc(v));
                lemma_occurs_split(s, 0, array_header(1), enc_uint(v));
            }
        }
        let (n, p0) = match read_array_header(b, 0) {
            Some(x) => x,
            None => { return Err(WireError::Malformed); },
        };
        if n != 1 {
            return Err(WireError::Malformed);
        }
        let (t, end) = match read_uint(b, p0) {
            Some(x) => x,
            None => { return Err(WireError::Malformed); },
        };
        if end != b.len() {
            return Err(WireError::Malformed);
        }
        proof {
            lemma_occurs_split(s, 0, array_header(1), enc_uint(t));
            lemma_whole(s, Self::enc(t));
        }
        Ok(PingPayload { timestamp: t })
    }
}

/// Payload of `ConnectResponse`.
#[derive(Debug, Clone)]
pub struct ConnectResponsePayload {
    pub success: bool,
    /// Reason of a failure, or a short acknowledgement.
    pub message: String,
}

impl View for ConnectResponsePayload {
    type V = (bool, Seq<char>);

    open spec fn view(&self) -> (bool, Seq<char>) {
        (self.success, self.message@)
    }
}

impl WireRecord for ConnectResponsePayload {
    open spec fn enc(v: (bool, Seq<char>)) -> Seq<u8> {
        array_header(2) + enc_bool(v.0) + enc_text(v.1)
    }

    fn to_wire(&self) -> (r: Result<Vec<u8>, WireError>) {
        let n = match text_len(&self.message) {
            Some(n) => n,
            None => { return Err(WireError::FrameTooLarge); },
        };
        let mut out: Vec<u8> = Vec::new();
        put_array_header(&mut out, 2);
        put_bool(&mut out, self.success);
        put_text(&mut out, &self.message);
        assert(out@ =~= Self::enc(self@));
        if out.len() > MAX_FRAME {
            return Err(WireError::FrameTooLarge);
        }
        Ok(out)
    }

    fn from_wire(b: &[u8]) -> (r: Result<Self, WireError>) {
        if b.len() > MAX_FRAME {
            return Err(WireError::FrameTooLarge);
        }
        let ghost s = b@;
        proof {
            assert forall|v: (bool, Seq<char>)| s == #[trigger] Self::enc(v) implies occurs_at(s, 0, array_header(2)) && occurs_at(s, 1, enc_bool(v.0)) && occurs_at(s, 2, enc_text(v.1)) by {
                lemma_whole(s, Self::enc(v));
                lemma_occurs_split(s, 0, array_header(2) + enc_bool(v.0), enc_text(v.1));
                lemma_occurs_split(s, 0, array_header(2), enc_bool(v.0));
            }
        }
        let (n, p0) = match read_array_header(b, 0) {
            Some(x) => x,
            None => { return Err(WireError::Malformed); },
        };
        if n != 2 {
            return Err(WireError::Malformed);
        }
        let (success, p1) = match read_bool(b, p0) {
            Some(x) => x,
            None => { return Err(WireError::Malformed); },
        };
        let (message, end) = match read_text(b, p1) {
            Some(x) => x,
            None => { return Err(WireError::Malformed); },
        };
        if end != b.len() {
            return Err(WireError::Malformed);
        }
        proof {
            lemma_occurs_split(s, 0, array_header(2), enc_bool(success));
            lemma_occurs_split(s, 0, array_header(2) + enc_bool(success), enc_text(message@));
            lemma_whole(s, Self::enc((success, message@)));
        }
        Ok(ConnectResponsePayload { success, message })
    }
}

fn put_protocol(out: &mut Vec<u8>, p: Protocol)
    ensures
        final(out)@ == old(out)@ + enc_str(protocol_name(p)),
{
    let name = protocol_name_bytes(p);
    put_str(out, name.as_slice());
}

fn read_protocol(b: &[u8], pos: usize) -> (r: Option<(Protocol, usize)>)
    requires
        pos <= b@.len(),
        b@.len() <= MAX_FRAME,
    ensures
        r matches Some((p, end)) ==> end == pos + enc_str(protocol_name(p)).len() && occurs_at(b@, pos as int, enc_str(protocol_name(p))),
        forall|p: Protocol| #[trigger] occurs_at(b@, pos as int, enc_str(protocol_name(p))) ==> r == Some((p, (pos + enc_str(protocol_name(p)).len()) as usize)),
{
    let (st, en) = match read_str(b, pos) {
        Some(x) => x,
        None => { return None; },
    };
    match protocol_from_name(b, st, en) {
        Some(p) => Some((p, en)),
        None => None,
    }
}

fn read_port(b: &[u8], pos: usize) -> (r: Option<(u16, usize)>)
    requires
        pos <= b@.len(),
    ensures
        r matches Some((v, end)) ==> end == pos + enc_uint(v as u64).len() && occurs_at(b@, pos as int, enc_uint(v as u64)),
        forall|v: u16| #[trigger] occurs_at(b@, pos as int, enc_uint(v as u64)) ==> r == Some((v, (pos + enc_uint(v as u64).len()) as usize)),
{
    match read_uint(b, pos) {
        Some((v, end)) => {
            if v < 65536 {
                Some((v as u16, end))
            } else {
                proof {
                    assert forall|w: u16| !#[trigger] occurs_at(b@, pos as int, enc_uint(w as u64)) by {}
                }
                None
            }
        },
        None => None,
    }
}

/// Payload of `SecureConnect`: the target and the session key wrapped with
/// the gateway's public key.
#[derive(Debug, Clone)]
pub struct SecureConnectPayload {
    pub protocol: Protocol,
    pub port: u16,
    /// The AES-256 key, encrypted with RSA PKCS#1 v1.5.
    pub encrypted_key: Vec<u8>,
    /// Name of the symmetric cipher ("AES-256-GCM").
    pub algorithm: String,
}

impl View for SecureConnectPayload {
    type V = (Protocol, u16, Seq<u8>, Seq<char>);

    open spec fn view(&self) -> (Protocol, u16, Seq<u8>, Seq<char>) {
        (self.protocol, self.port, self.encrypted_key@, self.algorithm@)
    }
}

impl WireRecord for SecureConnectPayload {
    open spec fn enc(v: (Protocol, u16, Seq<u8>, Seq<char>)) -> Seq<u8> {
        array_header(4) + enc_str(protocol_name(v.0)) + enc_uint(v.1 as u64) + enc_bytes(v.2) + enc_text(v.3)
    }

    fn to_wire(&self) -> (r: Result<Vec<u8>, WireError>) {
        proof {
            lemma_byte_items_len(self.encrypted_key@);
        }
        if self.encrypted_key.len() > MAX_FRAME {
            return Err(WireError::FrameTooLarge);
        }
        let n = match text_len(&self.algorithm) {
            Some(n) => n,
            None => { return Err(WireError::FrameTooLarge); },
        };
        let mut out: Vec<u8> = Vec::new();
        put_array_header(&mut out, 4);
        put_protocol(&mut out, self.protocol);
        put_uint(&mut out, self.port as u64);
        put_bytes(&mut out, self.encrypted_key.as_slice());
        put_text(&mut out, &self.algorithm);
        assert(out@ =~= Self::enc(self@));
        if out.len() > MAX_FRAME {
            return Err(WireError::FrameTooLarge);
        }
        Ok(out)
    }

    fn from_wire(b: &[u8]) -> (r: Result<Self, WireError>) {
        if b.len() > MAX_FRAME {
            return Err(WireError::FrameTooLarge);
        }
        let ghost s = b@;
        let ghost h = array_header(4);
        proof {
            assert forall|v: (Protocol, u16, Seq<u8>, Seq<char>)| s == #[trigger] Self::enc(v) implies ({
                let a = h + enc_str(protocol_name(v.0));
                let c = a + enc_uint(v.1 as u64);
                let d = c + enc_bytes(v.2);
                occurs_at(s, 0, h) && occurs_at(s, h.len() as int, enc_str(protocol_name(v.0)))
                && occurs_at(s, a.len() as int, enc_uint(v.1 as u64))
                && occurs_at(s, c.len() as int, enc_bytes(v.2))
                && occurs_at(s, d.len() as int, enc_text(v.3))
            }) by {
                let a = h + enc_str(protocol_name(v.0));
                let c = a + enc_uint(v.1 as u64);
                let d = c + enc_bytes(v.2);
                lemma_whole(s, Self::enc(v));
                lemma_occurs_split(s, 0, d, enc_text(v.3));
                lemma_occurs_split(s, 0, c, enc_bytes(v.2));
                lemma_occurs_split(s, 0, a, enc_uint(v.1 as u64));
                lemma_occurs_split(s, 0, h, enc_str(protocol_name(v.0)));
            }
        }
        let (n, p0) = match read_array_header(b, 0) {
            Some(x) => x,
            None => { return Err(WireError::Malformed); },
        };
        if n != 4 {
            return Err(WireError::Malformed);
        }
        let (protocol, p1) = match read_protocol(b, p0) {
            Some(x) => x,
            None => { return Err(WireError::Malformed); },
        };
        let (port, p2) = match read_port(b, p1) {
            Some(x) => x,
            None => { return Err(WireError::Malformed); },
        };
        let (encrypted_key, p3) = match read_bytes(b, p2) {
            Some(x) => x,
            None => { return Err(WireError::Malformed); },
        };
        let (algorithm, end) = match read_text(b, p3) {
            Some(x) => x,
            None => { return Err(WireError::Malformed); },
        };
        if end != b.len() {
            return Err(WireError::Malformed);
        }
        let r = SecureConnectPayload { protocol, port, encrypted_key, algorithm };
        proof {
            let a = h + enc_str(protocol_name(protocol));
            let c = a + enc_uint(port as u64);
            let d = c + enc_bytes(r.encrypted_key@);
            lemma_occurs_split(s, 0, h, enc_str(protocol_name(protocol)));
            lemma_occurs_split(s, 0, a, enc_uint(port as u64));
            lemma_occurs_split(s, 0, c, enc_bytes(r.encrypted_key@));
            lemma_occurs_split(s, 0, d, enc_text(r.algorithm@));
            lemma_whole(s, Self::enc(r@));
        }
        Ok(r)
    }
}

/// A target that the gateway may dial: a port on 127.0.0.1 and a protocol.
#[derive(Debug, Clone, Copy, PartialEq, Eq, Structural)]
pub struct AllowedPort {
    pub port: u16,
    pub protocol: Protocol,
}

pub open spec fn enc_allowed_port(a: AllowedPort) -> Seq<u8> {
    array_header(2) + enc_uint(a.port as u64) + enc_str(protocol_name(a.protocol))
}

/// The elements of a list of allowed ports.
pub open spec fn enc_port_items(s: Seq<AllowedPort>) -> Seq<u8>
    decreases s.len(),
{
    if s.len() == 0 {
        Seq::empty()
    } else {
        enc_port_items(s.drop_last()) + enc_allowed_port(s.last())
    }
}

proof fn lemma_port_items_len(p: Seq<AllowedPort>)
    ensures
        enc_port_items(p).len() >= p.len(),
    decreases p.len(),
{
    if p.len() > 0 {
        lemma_port_items_len(p.drop_last());
    }
}

proof fn lemma_port_items_first(r: Seq<AllowedPort>)
    requires
        r.len() > 0,
    ensures
        enc_port_items(r) == enc_allowed_port(r[0]) + enc_port_items(r.subrange(1, r.len() as int)),
    decreases r.len(),
{
    if r.len() == 1 {
        assert(r.drop_last() =~= Seq::<AllowedPort>::empty());
        assert(r.subrange(1, 1) =~= Seq::<AllowedPort>::empty());
        assert(enc_port_items(r.drop_last()) =~= Seq::<u8>::empty());
        assert(enc_port_items(r.subrange(1, 1)) =~= Seq::<u8>::empty());
        assert(r.last() == r[0]);
        assert(enc_port_items(r) =~= enc_allowed_port(r[0]) + Seq::<u8>::empty());
    } else {
        lemma_port_items_first(r.drop_last());
        assert(r.drop_last().subrange(1, r.len() - 1) =~= r.subrange(1, r.len() as int).drop_last());
        assert(r.subrange(1, r.len() as int).last() == r.last());
        assert(enc_port_items(r) =~= enc_allowed_port(r[0]) + enc_port_items(r.subrange(1, r.len() as int)));
    }
}

proof fn lemma_port_items_split(p: Seq<AllowedPort>, i: int)
    requires
        0 <= i <= p.len(),
    ensures
        enc_port_items(p) == enc_port_items(p.subrange(0, i)) + enc_port_items(p.subrange(i, p.len() as int)),
    decreases p.len() - i,
{
    if i < p.len() {
        lemma_port_items_split(p, i + 1);
        let q = p.subrange(0, i + 1);
        assert(q.drop_last() =~= p.subrange(0, i));
        let r = p.subrange(i, p.len() as int);
        let r1 = p.subrange(i + 1, p.len() as int);
        lemma_port_items_first(r);
        assert(r.subrange(1, r.len() as int) =~= r1);
        assert(enc_port_items(p.subrange(0, i)) + enc_port_items(r) =~= enc_port_items(p.subrange(0, i)) + enc_allowed_port(p[i]) + enc_port_items(r1));
    } else {
        assert(p.subrange(0, i) =~= p);
        assert(p.subrange(i, p.len() as int) =~= Seq::<AllowedPort>::empty());
        assert(enc_port_items(p) + Seq::<u8>::empty() =~= enc_port_items(p));
    }
}

proof fn lemma_next_port_item(s: Seq<u8>, start: int, cur: int, p: Seq<AllowedPort>, i: int)
    requires
        0 <= i < p.len(),
        0 <= start <= cur <= s.len(),
        occurs_at(s, start, enc_port_items(p)),
        s.subrange(start, cur) == enc_port_items(p.subrange(0, i)),
    ensures
        occurs_at(s, cur, enc_allowed_port(p[i])),
{
    let rest = p.subrange(i, p.len() as int);
    lemma_port_items_split(p, i);
    lemma_port_items_first(rest);
    assert(rest[0] == p[i]);
    let a = enc_port_items(p.subrange(0, i));
    let b = enc_allowed_port(p[i]) + enc_port_items(rest.subrange(1, rest.len() as int));
    assert(enc_port_items(p) == a + b);
    assert(a.len() == cur - start);
    lemma_occurs_split(s, start, a, b);
    lemma_occurs_split(s, start + a.len(), enc_allowed_port(p[i]), enc_port_items(rest.subrange(1, rest.len() as int)));
}

fn put_allowed_port(out: &mut Vec<u8>, a: AllowedPort)
    ensures
        final(out)@ == old(out)@ + enc_allowed_port(a),
{
    put_array_header(out, 2);
    put_uint(out, a.port as u64);
    put_protocol(out, a.protocol);
    assert(final(out)@ =~= old(out)@ + enc_allowed_port(a));
}

fn read_allowed_port(b: &[u8], pos: usize) -> (r: Option<(AllowedPort, usize)>)
    requires
        pos <= b@.len(),
        b@.len() <= MAX_FRAME,
    ensures
        r matches Some((a, end)) ==> end == pos + enc_allowed_port(a).len() && occurs_at(b@, pos as int, enc_allowed_port(a)),
        forall|a: AllowedPort| #[trigger] occurs_at(b@, pos as int, enc_allowed_port(a)) ==> r == Some((a, (pos + enc_allowed_port(a).len()) as usize)),
{
    let ghost s = b@;
    let ghost h = array_header(2);
    proof {
        assert forall|a: AllowedPort| #[trigger] occurs_at(s, pos as int, enc_allowed_port(a)) implies occurs_at(s, pos as int, h) && occurs_at(s, pos + 1, enc_uint(a.port as u64)) && occurs_at(s, pos + 1 + enc_uint(a.port as u64).len(), enc_str(protocol_name(a.protocol))) by {
            lemma_occurs_split(s, pos as int, h + enc_uint(a.port as u64), enc_str(protocol_name(a.protocol)));
            lemma_occurs_split(s, pos as int, h, enc_uint(a.port as u64));
        }
    }
    let (n, p0) = match read_array_header(b, pos) {
        Some(x) => x,
        None => { return None; },
    };
    if n != 2 {
        return None;
    }
    let (port, p1) = match read_port(b, p0) {
        Some(x) => x,
        None => { return None; },
    };
    let (protocol, end) = match read_protocol(b, p1) {
        Some(x) => x,
        None => { return None; },
    };
    let a = AllowedPort { port, protocol };
    proof {
        lemma_occurs_split(s, pos as int, h, enc_uint(port as u64));
        lemma_occurs_split(s, pos as int, h + enc_uint(port as u64), enc_str(protocol_name(protocol)));
    }
    Some((a, end))
}

/// Payload of `ServerInfoResponse`.
#[derive(Debug, Clone)]
pub struct ServerInfoResponsePayload {
    pub server_version: String,
    pub allowed_ports: Vec<AllowedPort>,
}

impl View for ServerInfoResponsePayload {
    type V = (Seq<char>, Seq<AllowedPort>);

    open spec fn view(&self) -> (Seq<char>, Seq<AllowedPort>) {
        (self.server_version@, self.allowed_ports@)
    }
}

impl WireRecord for ServerInfoResponsePayload {
    open spec fn enc(v: (Seq<char>, Seq<AllowedPort>)) -> Seq<u8> {
        array_header(2) + enc_text(v.0) + array_header(v.1.len()) + enc_port_items(v.1)
    }

    fn to_wire(&self) -> (r: Result<Vec<u8>, WireError>) {
        proof {
            lemma_port_items_len(self.allowed_ports@);
        }
        if self.allowed_ports.len() > MAX_FRAME {
            return Err(WireError::FrameTooLarge);
        }
        let n = match text_len(&self.server_version) {
            Some(n) => n,
            None => { return Err(WireError::FrameTooLarge); },
        };
        let mut out: Vec<u8> = Vec::new();
        put_array_header(&mut out, 2);
        put_text(&mut out, &self.server_version);
        put_array_header(&mut out, self.allowed_ports.len());
        let ghost start = out@;
        let mut i: usize = 0;
        while i < self.allowed_ports.len()
            invariant
                i <= self.allowed_ports@.len(),
                out@ == start + enc_port_items(self.allowed_ports@.subrange(0, i as int)),
            decreases self.allowed_ports@.len() - i,
        {
            put_allowed_port(&mut out, self.allowed_ports[i]);
            proof {
                let q = self.allowed_ports@.subrange(0, i + 1);
                assert(q.drop_last() =~= self.allowed_ports@.subrange(0, i as int));
            }
            i = i + 1;
            assert(out@ =~= start + enc_port_items(self.allowed_ports@.subrange(0, i as int)));
        }
        assert(self.allowed_ports@.subrange(0, self.allowed_ports@.len() as int) =~= self.allowed_ports@);
        assert(out@ =~= Self::enc(self@));
        if out.len() > MAX_FRAME {
            return Err(WireError::FrameTooLarge);
        }
        Ok(out)
    }

    fn from_wire(b: &[u8]) -> (r: Result<Self, WireError>) {
        if b.len() > MAX_FRAME {
            return Err(WireError::FrameTooLarge);
        }
        let ghost s = b@;
        let ghost h = array_header(2);
        proof {
            assert forall|v: (Seq<char>, Seq<AllowedPort>)| s == #[trigger] Self::enc(v) implies ({
                let a = h + enc_text(v.0);
                let c = a + array_header(v.1.len());
                occurs_at(s, 0, h) && occurs_at(s, h.len() as int, enc_text(v.0))
                && occurs_at(s, a.len() as int, array_header(v.1.len()))
                && occurs_at(s, c.len() as int, enc_port_items(v.1))
                && c.len() + enc_port_items(v.1).len() == s.len()
                && v.1.len() < 0x1_0000_0000
            }) by {
                let a = h + enc_text(v.0);
                let c = a + array_header(v.1.len());
                lemma_port_items_len(v.1);
                lemma_whole(s, Self::enc(v));
                lemma_occurs_split(s, 0, c, enc_port_items(v.1));
                lemma_occurs_split(s, 0, a, array_header(v.1.len()));
                lemma_occurs_split(s, 0, h, enc_text(v.0));
            }
        }
        let (n, p0) = match read_array_header(b, 0) {
            Some(x) => x,
            None => { return Err(WireError::Malformed); },
        };
        if n != 2 {
            return Err(WireError::Malformed);
        }
        let (server_version, p1) = match read_text(b, p0) {
            Some(x) => x,
            None => { return Err(WireError::Malformed); },
        };
        let (count, start) = match read_array_header(b, p1) {
            Some(x) => x,
            None => { return Err(WireError::Malformed); },
        };
        let mut items: Vec<AllowedPort> = Vec::new();
        let mut cur = start;
        let mut i: usize = 0;
        while i < count
            invariant
                i <= count,
                start <= cur <= s.len(),
                items@.len() == i,
                s == b@,
                b@.len() <= MAX_FRAME,
                s.subrange(start as int, cur as int) == enc_port_items(items@),
                forall|v: (Seq<char>, Seq<AllowedPort>)| s == #[trigger] Self::enc(v) ==> v.1.len() == count && v.1.subrange(0, i as int) == items@ && occurs_at(s, start as int, enc_port_items(v.1)) && start + enc_port_items(v.1).len() == s.len(),
            decreases count - i,
        {
            let ghost before = items@;
            match read_allowed_port(b, cur) {
                None => {
                    proof {
                        assert forall|v: (Seq<char>, Seq<AllowedPort>)| s != #[trigger] Self::enc(v) by {
                            if s == Self::enc(v) {
                                lemma_next_port_item(s, start as int, cur as int, v.1, i as int);
                            }
                        }
                    }
                    return Err(WireError::Malformed);
                },
                Some((a, next)) => {
                    proof {
                        assert forall|v: (Seq<char>, Seq<AllowedPort>)| s == #[trigger] Self::enc(v) implies v.1[i as int] == a by {
                            lemma_next_port_item(s, start as int, cur as int, v.1, i as int);
                        }
                    }
                    items.push(a);
                    proof {
                        assert(items@.drop_last() =~= before);
                        assert(s.subrange(start as int, next as int) =~= s.subrange(start as int, cur as int) + s.subrange(cur as int, next as int));
                        assert forall|v: (Seq<char>, Seq<AllowedPort>)| s == #[trigger] Self::enc(v) implies v.1.subrange(0, i + 1) == items@ by {
                            assert(v.1[i as int] == a);
                            assert(v.1.subrange(0, i + 1) =~= items@);
                        }
                    }
                    cur = next;
                    i = i + 1;
                },
            }
        }
        if cur != b.len() {
            proof {
                assert forall|v: (Seq<char>, Seq<AllowedPort>)| s != #[trigger] Self::enc(v) by {
                    if s == Self::enc(v) {
                        assert(v.1.subrange(0, count as int) =~= v.1);
                    }
                }
            }
            return Err(WireError::Malformed);
        }
        let r = ServerInfoResponsePayload { server_version, allowed_ports: items };
        proof {
            let a = h + enc_text(r.server_version@);
            lemma_occurs_split(s, 0, h, enc_text(r.server_version@));
            lemma_occurs_split(s, 0, a, array_header(count as nat));
            assert(s.subrange(0, s.len() as int) =~= s.subrange(0, start as int) + s.subrange(start as int, cur as int));
            assert(s =~= Self::enc(r@));
            assert forall|v: (Seq<char>, Seq<AllowedPort>)| s == #[trigger] Self::enc(v) implies v == r@ by {
                assert(v.1.subrange(0, count as int) =~= v.1);
            }
        }
        Ok(r)
    }
}

/// Traffic statistics of one tunnel, as reported to a front-end.
#[derive(Debug, Clone, Copy, PartialEq, Eq)]
pub struct StatsPayload {
    pub upload_total: u64,
    pub download_total: u64,
    /// Bytes per second over the last sampling interval.
    pub upload_speed: u64,
    pub download_speed: u64,
    /// Last measured round-trip time in milliseconds.
    pub rtt_ms: Option<u64>,
}

/// Target of the plaintext `Connect` request, which the gateway refuses.
#[derive(Debug, Clone)]
pub struct ConnectPayload {
    pub protocol: Protocol,
    pub port: u16,
    pub compression: Option<String>,
}

/// Connection settings handed to clients: where the gateway listens and its
/// public key (Base64 DER).
#[derive(Debug, Clone)]
pub struct ServerExportConfig {
    pub host: String,
    pub port: u16,
    pub public_key: String,
    /// Allow-list in its text form, `"port:protocol,..."`.
    pub allowed_ports: Option<String>,
}

} // verus!
