//! Java Edition status: the Server List Ping over TCP. The library builds
//! the handshake and request packets, decides what each byte of the
//! response means, and turns the status JSON (as a [`ChatComponent`] tree
//! and plain numbers) into [`MotdJavaInfo`].
use vstd::prelude::*;
use vstd::utf8::{decode_utf8, encode_utf8, is_char_boundary};
use crate::text::{i64_to_decimal, signed_decimal, str_eq};
use crate::util::{
    ansi_for, colour_code_chars, colour_sequence, lemma_colour_code_sequences, section,
    split_host_port, split_host_port_spec,
};
use super::varint::{
    VarIntDecoded, VarIntProgress, VarIntProgressSpec, VarIntState, lemma_varint_length,
    lemma_varint_roundtrip, place_value, varint_bytes, varint_decode_spec, varint_encoding,
    varint_feed, varint_feed_spec, varint_start, write_varint,
};

verus! {

// ---------------------------------------------------------------------------
// Results and errors
// ---------------------------------------------------------------------------
/// What a Java Edition server reports of itself.
pub struct MotdJavaInfo {
    /// `online` or `offline`.
    pub status: String,
    /// The address that was queried.
    pub host: String,
    /// The message of the day, with `§` formatting codes.
    pub motd: String,
    /// The protocol version.
    pub agreement: i32,
    /// The game version's name.
    pub version: String,
    /// Players online.
    pub online: i32,
    /// Player slots.
    pub max: i32,
    /// Round trip in milliseconds.
    pub delay: i64,
}

impl MotdJavaInfo {
    /// The record of a server that is offline: status `offline`, empty
    /// texts, zero numbers.
    pub fn offline() -> (r: Self)
        ensures
            r.status@ == "offline"@,
            r.host@.len() == 0,
            r.motd@.len() == 0,
            r.version@.len() == 0,
            r.agreement == 0,
            r.online == 0,
            r.max == 0,
            r.delay == 0,
    {
        MotdJavaInfo {
            status: String::from_str("offline"),
            host: String::new(),
            motd: String::new(),
            agreement: 0,
            version: String::new(),
            online: 0,
            max: 0,
            delay: 0,
        }
    }
}

/// Why a Java Edition query failed. I/O failures carry the system's
/// message.
#[derive(Debug)]
pub enum JavaError {
    EmptyHost,
    DnsResolution(String),
    TcpConnect(String),
    SetTimeout(String),
    SendHandshake(String),
    SendRequest(String),
    ReadPacketLength(String),
    ReadPacketId(String),
    InvalidPacketId { expected: i32, received: i32 },
    ReadJsonLength(String),
    ReadPayload(String),
    JsonParse { raw: String, error: String },
    VarIntTooLarge,
}

/// A [`JavaError`] with its texts as character sequences.
pub enum JavaErrorView {
    EmptyHost,
    DnsResolution(Seq<char>),
    TcpConnect(Seq<char>),
    SetTimeout(Seq<char>),
    SendHandshake(Seq<char>),
    SendRequest(Seq<char>),
    ReadPacketLength(Seq<char>),
    ReadPacketId(Seq<char>),
    InvalidPacketId { expected: i32, received: i32 },
    ReadJsonLength(Seq<char>),
    ReadPayload(Seq<char>),
    JsonParse { raw: Seq<char>, error: Seq<char> },
    VarIntTooLarge,
}

impl View for JavaError {
    type V = JavaErrorView;

    open spec fn view(&self) -> JavaErrorView {
        match self {
            JavaError::EmptyHost => JavaErrorView::EmptyHost,
            JavaError::DnsResolution(m) => JavaErrorView::DnsResolution(m@),
            JavaError::TcpConnect(m) => JavaErrorView::TcpConnect(m@),
            JavaError::SetTimeout(m) => JavaErrorView::SetTimeout(m@),
            JavaError::SendHandshake(m) => JavaErrorView::SendHandshake(m@),
            JavaError::SendRequest(m) => JavaErrorView::SendRequest(m@),
            JavaError::ReadPacketLength(m) => JavaErrorView::ReadPacketLength(m@),
            JavaError::ReadPacketId(m) => JavaErrorView::ReadPacketId(m@),
            JavaError::InvalidPacketId { expected, received } => JavaErrorView::InvalidPacketId {
                expected: *expected,
                received: *received,
            },
            JavaError::ReadJsonLength(m) => JavaErrorView::ReadJsonLength(m@),
            JavaError::ReadPayload(m) => JavaErrorView::ReadPayload(m@),
            JavaError::JsonParse { raw, error } => JavaErrorView::JsonParse {
                raw: raw@,
                error: error@,
            },
            JavaError::VarIntTooLarge => JavaErrorView::VarIntTooLarge,
        }
    }
}

/// How many bytes of the raw response a JSON error message quotes: 200, or
/// all of it where it is shorter.
pub open spec fn quoted_length(raw: Seq<char>) -> int {
    let n = encode_utf8(raw).len() as int;
    if n < 200 {
        n
    } else {
        200
    }
}

/// The quoted part of the raw response ends between two characters.
pub open spec fn quote_is_whole(raw: Seq<char>) -> bool {
    is_char_boundary(encode_utf8(raw), quoted_length(raw))
}

/// The text shown for each error.
pub open spec fn java_error_message(e: JavaErrorView) -> Seq<char> {
    match e {
        JavaErrorView::EmptyHost => "服务器地址为空"@,
        JavaErrorView::DnsResolution(m) => "DNS 解析失败: "@ + m,
        JavaErrorView::TcpConnect(m) => "TCP 连接失败 (端口可能不通): "@ + m,
        JavaErrorView::SetTimeout(m) => "设置超时失败: "@ + m,
        JavaErrorView::SendHandshake(m) => "发送握手包失败: "@ + m,
        JavaErrorView::SendRequest(m) => "发送请求包失败: "@ + m,
        JavaErrorView::ReadPacketLength(m) => "读取响应包长度失败 (服务器未返回信息): "@ + m,
        JavaErrorView::ReadPacketId(m) => "读取包 ID 失败: "@ + m,
        JavaErrorView::InvalidPacketId { expected, received } => "收到无效的包 ID (期望 "@
            + signed_decimal(expected as int) + ", 收到 "@ + signed_decimal(received as int)
            + ")"@,
        JavaErrorView::ReadJsonLength(m) => "读取 JSON 长度失败: "@ + m,
        JavaErrorView::ReadPayload(m) => "读取 JSON 数据失败: "@ + m,
        JavaErrorView::JsonParse { raw, error } => "JSON 解析失败: "@ + error + "\n  原始数据: "@
            + decode_utf8(encode_utf8(raw).take(quoted_length(raw))),
        JavaErrorView::VarIntTooLarge => "VarInt 超出范围"@,
    }
}

fn prefixed(prefix: &str, m: &String) -> (r: String)
    ensures
        r@ == prefix@ + m@,
{
    let mut r = String::from_str(prefix);
    r.append(m.as_str());
    r
}

impl JavaError {
    /// The message to show for this error. A JSON error quotes the first
    /// 200 bytes of the response, which must not cut a character.
    pub fn message(&self) -> (r: String)
        requires
            self@ matches JavaErrorView::JsonParse { raw, .. } ==> quote_is_whole(raw),
        ensures
            r@ == java_error_message(self@),
    {
        match self {
            JavaError::EmptyHost => String::from_str("服务器地址为空"),
            JavaError::DnsResolution(m) => prefixed("DNS 解析失败: ", m),
            JavaError::TcpConnect(m) => prefixed("TCP 连接失败 (端口可能不通): ", m),
            JavaError::SetTimeout(m) => prefixed("设置超时失败: ", m),
            JavaError::SendHandshake(m) => prefixed("发送握手包失败: ", m),
            JavaError::SendRequest(m) => prefixed("发送请求包失败: ", m),
            JavaError::ReadPacketLength(m) => prefixed("读取响应包长度失败 (服务器未返回信息): ", m),
            JavaError::ReadPacketId(m) => prefixed("读取包 ID 失败: ", m),
            JavaError::InvalidPacketId { expected, received } => {
                let mut r = String::from_str("收到无效的包 ID (期望 ");
                let e = i64_to_decimal(*expected as i64);
                r.append(e.as_str());
                r.append(", 收到 ");
                let g = i64_to_decimal(*received as i64);
                r.append(g.as_str());
                r.append(")");
                r
            },
            JavaError::ReadJsonLength(m) => prefixed("读取 JSON 长度失败: ", m),
            JavaError::ReadPayload(m) => prefixed("读取 JSON 数据失败: ", m),
            JavaError::JsonParse { raw, error } => {
                let mut r = String::from_str("JSON 解析失败: ");
                r.append(error.as_str());
                r.append("\n  原始数据: ");
                let s = raw.as_str();
                let n = s.as_bytes().len();
                let cut: usize = if n < 200 {
                    n
                } else {
                    200
                };
                let (head, _) = s.split_at(cut);
                proof {
                    vstd::utf8::encode_utf8_decode_utf8(head@);
                }
                r.append(head);
                r
            },
            JavaError::VarIntTooLarge => String::from_str("VarInt 超出范围"),
        }
    }
}

// ---------------------------------------------------------------------------
// The request
// ---------------------------------------------------------------------------
/// The default port of a Java Edition server.
pub const DEFAULT_PORT: u16 = 25565;

/// Host and port to connect to: an empty address is refused; otherwise
/// the address is split at its last `:`, a missing or invalid port meaning
/// 25565.
pub fn java_target(host: &str) -> (r: Result<(&str, u16), JavaError>)
    ensures
        host@.len() == 0 ==> (r matches Err(e) && e@ == JavaErrorView::EmptyHost),
        host@.len() > 0 ==> (r matches Ok(t) && (t.0@, t.1) == split_host_port_spec(
            host@,
            DEFAULT_PORT,
        )),
{
    if host.is_empty() {
        return Err(JavaError::EmptyHost);
    }
    Ok(split_host_port(host, DEFAULT_PORT))
}

/// The protocol version announced in the handshake.
pub open spec fn announced_protocol() -> i32 {
    575
}

/// The handshake's fields: packet id 0, protocol version 575, the server
/// address as a length-prefixed UTF-8 string, the port big-endian, next
/// state 1 (status).
pub open spec fn handshake_body(address: Seq<u8>, port: u16) -> Seq<u8> {
    varint_encoding(0) + varint_encoding(announced_protocol()) + varint_encoding(
        address.len() as i32,
    ) + address + seq![(port / 256) as u8, (port % 256) as u8] + varint_encoding(1)
}

/// A packet: its length as a VarInt, then its bytes.
pub open spec fn framed(body: Seq<u8>) -> Seq<u8> {
    varint_encoding(body.len() as i32) + body
}

fn push_bytes(buf: &mut Vec<u8>, bytes: &[u8])
    ensures
        final(buf)@ == old(buf)@ + bytes@,
{
    let mut i: usize = 0;
    while i < bytes.len()
        invariant
            i <= bytes.len(),
            buf@ == old(buf)@ + bytes@.take(i as int),
        decreases bytes.len() - i,
    {
        buf.push(bytes[i]);
        i = i + 1;
        assert(buf@ =~= old(buf)@ + bytes@.take(i as int));
    }
    assert(bytes@.take(bytes.len() as int) =~= bytes@);
}

/// Builds the handshake packet for a server address and port.
pub fn build_handshake(address: &str, port: u16) -> (r: Vec<u8>)
    ensures
        r@ == framed(handshake_body(encode_utf8(address@), port)),
{
    let bytes = address.as_bytes();
    let mut body: Vec<u8> = Vec::new();
    write_varint(&mut body, 0);
    write_varint(&mut body, 575);
    write_varint(&mut body, bytes.len() as i32);
    push_bytes(&mut body, bytes);
    body.push((port / 256) as u8);
    body.push((port % 256) as u8);
    write_varint(&mut body, 1);
    assert(body@ =~= handshake_body(encode_utf8(address@), port));
    let mut packet: Vec<u8> = Vec::new();
    write_varint(&mut packet, body.len() as i32);
    push_bytes(&mut packet, body.as_slice());
    assert(packet@ =~= framed(body@));
    packet
}

/// The status request: a packet of length 1 holding packet id 0.
pub fn status_request() -> (r: Vec<u8>)
    ensures
        r@ == seq![1u8, 0u8],
{
    let mut r: Vec<u8> = Vec::new();
    r.push(1);
    r.push(0);
    assert(r@ =~= seq![1u8, 0u8]);
    r
}

// ---------------------------------------------------------------------------
// The response
// ---------------------------------------------------------------------------
/// Which VarInt of the response is being read.
#[derive(Clone, Copy, Debug, PartialEq, Eq, Structural)]
pub enum ResponseStage {
    PacketLength,
    PacketId,
    JsonLength,
    /// All three VarInts are read; the JSON text follows.
    Payload,
}

/// What the reader of a status response needs next from the connection.
#[derive(Clone, Copy, Debug, PartialEq, Eq, Structural)]
pub enum ReadRequest {
    /// One more byte.
    Byte,
    /// The JSON text, of the length given (as the server sent it).
    Payload(i32),
}

/// Reads the header of a status response byte by byte: the packet length,
/// the packet id (which must be 0) and the length of the JSON text.
pub struct StatusReader {
    pub stage: ResponseStage,
    pub varint: VarIntState,
    /// The packet length, once read.
    pub packet_length: i32,
}

/// A [`StatusReader`] seen as numbers.
pub struct ReaderState {
    pub stage: ResponseStage,
    pub acc: int,
    pub count: nat,
    pub packet_length: i32,
}

impl View for StatusReader {
    type V = ReaderState;

    open spec fn view(&self) -> ReaderState {
        ReaderState {
            stage: self.stage,
            acc: self.varint.acc as int,
            count: self.varint.count as nat,
            packet_length: self.packet_length,
        }
    }
}

/// The reader before the first byte of a response.
pub open spec fn reader_start() -> ReaderState {
    ReaderState { stage: ResponseStage::PacketLength, acc: 0, count: 0, packet_length: 0 }
}

/// The error reported when a VarInt of this stage cannot be read, because
/// the connection failed or the VarInt was too long.
pub open spec fn read_failure(stage: ResponseStage) -> JavaErrorView {
    match stage {
        ResponseStage::PacketLength => JavaErrorView::ReadPacketLength(
            "failed to read packet length"@,
        ),
        ResponseStage::PacketId => JavaErrorView::ReadPacketId("failed to read packet id"@),
        _ => JavaErrorView::ReadJsonLength("failed to read json length"@),
    }
}

/// What a complete VarInt `v` does: the packet length is kept and the
/// packet id comes next; a packet id other than 0 is refused, 0 leads to
/// the JSON length; the JSON length asks for the JSON text.
pub open spec fn reader_on_value(s: ReaderState, v: i32) -> Result<
    (ReaderState, ReadRequest),
    JavaErrorView,
> {
    match s.stage {
        ResponseStage::PacketLength => Ok(
            (
                ReaderState { stage: ResponseStage::PacketId, acc: 0, count: 0, packet_length: v },
                ReadRequest::Byte,
            ),
        ),
        ResponseStage::PacketId => if v != 0 {
            Err(JavaErrorView::InvalidPacketId { expected: 0, received: v })
        } else {
            Ok(
                (
                    ReaderState {
                        stage: ResponseStage::JsonLength,
                        acc: 0,
                        count: 0,
                        packet_length: s.packet_length,
                    },
                    ReadRequest::Byte,
                ),
            )
        },
        _ => Ok(
            (
                ReaderState {
                    stage: ResponseStage::Payload,
                    acc: 0,
                    count: 0,
                    packet_length: s.packet_length,
                },
                ReadRequest::Payload(v),
            ),
        ),
    }
}

/// One byte of the header: it goes to the VarInt being read; a VarInt that
/// goes on asks for another byte, one that is too long fails as the
/// stage's read failure, and a complete one moves the reader on.
pub open spec fn reader_step(s: ReaderState, byte: u8) -> Result<
    (ReaderState, ReadRequest),
    JavaErrorView,
> {
    match varint_feed_spec(s.acc, s.count, byte) {
        VarIntProgressSpec::Pending(a, c) => Ok(
            (
                ReaderState { stage: s.stage, acc: a, count: c, packet_length: s.packet_length },
                ReadRequest::Byte,
            ),
        ),
        VarIntProgressSpec::TooLarge => Err(read_failure(s.stage)),
        VarIntProgressSpec::Complete(v) => reader_on_value(s, v),
    }
}

/// Where a step leads once the next bytes are `rest`: an error or a
/// request for the JSON text ends the header; a request for another byte
/// goes on with `rest`.
pub open spec fn reader_continue(
    step: Result<(ReaderState, ReadRequest), JavaErrorView>,
    rest: Seq<u8>,
) -> Option<Result<i32, JavaErrorView>>
    decreases rest.len(), 1nat,
{
    match step {
        Err(e) => Some(Err(e)),
        Ok((_, ReadRequest::Payload(n))) => Some(Ok(n)),
        Ok((s, ReadRequest::Byte)) => reader_run(s, rest),
    }
}

/// Feeding `bytes` one by one: the JSON length asked for, the error, or
/// `None` where the bytes run out first.
pub open spec fn reader_run(s: ReaderState, bytes: Seq<u8>) -> Option<Result<i32, JavaErrorView>>
    decreases bytes.len(), 0nat,
{
    if bytes.len() == 0 {
        None
    } else {
        reader_continue(reader_step(s, bytes[0]), bytes.skip(1))
    }
}

impl StatusReader {
    /// The reader's state is one it can be in.
    pub open spec fn wf(&self) -> bool {
        self.varint.wf()
    }

    /// A reader at the start of the response.
    pub fn new() -> (r: Self)
        ensures
            r.wf(),
            r@ == reader_start(),
    {
        StatusReader { stage: ResponseStage::PacketLength, varint: varint_start(), packet_length: 0 }
    }

    /// The error to report when the connection fails while a VarInt is
    /// being read.
    pub fn read_failed(&self) -> (e: JavaError)
        ensures
            e@ == read_failure(self.stage),
    {
        match self.stage {
            ResponseStage::PacketLength => JavaError::ReadPacketLength(
                String::from_str("failed to read packet length"),
            ),
            ResponseStage::PacketId => JavaError::ReadPacketId(
                String::from_str("failed to read packet id"),
            ),
            _ => JavaError::ReadJsonLength(String::from_str("failed to read json length")),
        }
    }

    /// Takes the next byte of the response header.
    pub fn feed(&mut self, byte: u8) -> (r: Result<ReadRequest, JavaError>)
        requires
            old(self).wf(),
            old(self).stage != ResponseStage::Payload,
        ensures
            final(self).wf(),
            match reader_step(old(self)@, byte) {
                Ok((s, req)) => r == Ok::<ReadRequest, JavaError>(req) && final(self)@ == s,
                Err(e) => r matches Err(x) && x@ == e,
            },
    {
        match varint_feed(self.varint, byte) {
            VarIntProgress::Pending(s) => {
                self.varint = s;
                Ok(ReadRequest::Byte)
            },
            VarIntProgress::TooLarge => Err(self.read_failed()),
            VarIntProgress::Complete(v) => {
                self.varint = varint_start();
                match self.stage {
                    ResponseStage::PacketLength => {
                        self.stage = ResponseStage::PacketId;
                        self.packet_length = v;
                        Ok(ReadRequest::Byte)
                    },
                    ResponseStage::PacketId => {
                        if v != 0 {
                            Err(JavaError::InvalidPacketId { expected: 0, received: v })
                        } else {
                            self.stage = ResponseStage::JsonLength;
                            Ok(ReadRequest::Byte)
                        }
                    },
                    _ => {
                        self.stage = ResponseStage::Payload;
                        Ok(ReadRequest::Payload(v))
                    },
                }
            },
        }
    }
}

proof fn lemma_reader_varint(s: ReaderState, y: nat, rest: Seq<u8>)
    requires
        s.count + varint_bytes(y).len() <= 5,
        s.acc >= 0,
        s.stage != ResponseStage::Payload,
    ensures
        reader_run(s, varint_bytes(y) + rest) == reader_continue(
            reader_on_value(s, (((s.acc + y * place_value(s.count)) % 0x1_0000_0000) as u32) as i32),
            rest,
        ),
    decreases y,
{
    let bytes = varint_bytes(y) + rest;
    if y < 128 {
        assert(bytes[0] == y as u8);
        assert((y as u8) % 128 == y);
        assert(bytes.skip(1) =~= rest);
    } else {
        let b = (y % 128 + 128) as u8;
        assert(bytes[0] == b);
        assert(b % 128 == y % 128);
        let tail = varint_bytes(y / 128);
        assert(bytes.skip(1) =~= tail + rest);
        assert(varint_bytes(y).len() == 1 + tail.len());
        let next = s.acc + (y % 128) * place_value(s.count);
        assert(next >= 0) by (nonlinear_arith)
            requires
                s.acc >= 0,
                y % 128 >= 0,
                place_value(s.count) >= 1,
                next == s.acc + (y % 128) * place_value(s.count),
        ;
        let s2 = ReaderState {
            stage: s.stage,
            acc: next,
            count: s.count + 1,
            packet_length: s.packet_length,
        };
        lemma_reader_varint(s2, y / 128, rest);
        assert(place_value(s.count + 1) == place_value(s.count) * 128);
        assert(next + (y / 128) * place_value(s.count + 1) == s.acc + y * place_value(s.count))
            by (nonlinear_arith)
            requires
                next == s.acc + (y % 128) * place_value(s.count),
                place_value(s.count + 1) == place_value(s.count) * 128,
                y == (y / 128) * 128 + y % 128,
        ;
    }
}

proof fn lemma_reader_value(s: ReaderState, v: i32, rest: Seq<u8>)
    requires
        s.acc == 0,
        s.count == 0,
        s.stage != ResponseStage::Payload,
    ensures
        reader_run(s, varint_encoding(v) + rest) == reader_continue(reader_on_value(s, v), rest),
{
    let u = (v as u32) as nat;
    lemma_varint_length(u, 5);
    lemma_reader_varint(s, u, rest);
    assert(((v as u32) as i32) == v) by (bit_vector);
    assert(u % 0x1_0000_0000 == u);
}

/// A response that starts with a packet length, packet id 0 and a JSON
/// length asks for a JSON text of that length, whatever follows; one whose
/// packet id is not 0 is refused with that id.
pub proof fn lemma_reader_reads_header(len: i32, id: i32, json_len: i32, rest: Seq<u8>)
    ensures
        reader_run(
            reader_start(),
            varint_encoding(len) + varint_encoding(id) + varint_encoding(json_len) + rest,
        ) == (if id == 0 {
            Some(Ok::<i32, JavaErrorView>(json_len))
        } else {
            Some(Err::<i32, JavaErrorView>(JavaErrorView::InvalidPacketId { expected: 0, received: id }))
        }),
{
    let a = varint_encoding(len);
    let b = varint_encoding(id);
    let c = varint_encoding(json_len);
    let after_len = b + c + rest;
    assert(a + b + c + rest =~= a + after_len);
    lemma_reader_value(reader_start(), len, after_len);
    let s1 = ReaderState { stage: ResponseStage::PacketId, acc: 0, count: 0, packet_length: len };
    assert(reader_on_value(reader_start(), len) == Ok::<(ReaderState, ReadRequest), JavaErrorView>(
        (s1, ReadRequest::Byte),
    ));
    assert(reader_run(reader_start(), a + after_len) == reader_run(s1, after_len));
    assert(after_len =~= b + (c + rest));
    lemma_reader_value(s1, id, c + rest);
    if id == 0 {
        let s2 = ReaderState { stage: ResponseStage::JsonLength, acc: 0, count: 0, packet_length: len };
        assert(reader_run(s1, after_len) == reader_run(s2, c + rest));
        lemma_reader_value(s2, json_len, rest);
    }
}

/// A framed packet starts with the VarInt of its body's length.
pub proof fn lemma_framed_length(body: Seq<u8>, rest: Seq<u8>)
    requires
        body.len() <= i32::MAX,
    ensures
        varint_decode_spec(framed(body) + rest) == VarIntDecoded::Value(
            body.len() as i32,
            varint_encoding(body.len() as i32).len() as usize,
        ),
{
    assert(framed(body) + rest =~= varint_encoding(body.len() as i32) + (body + rest));
    lemma_varint_roundtrip(body.len() as i32, body + rest);
}

// ---------------------------------------------------------------------------
// The status JSON
// ---------------------------------------------------------------------------
/// The `description` of a status response, or one of its `extra` parts, as
/// far as the MOTD reads it: a plain string, or an object with its `text`
/// and `translate` strings, its `extra` array, its `color` string and its
/// format flags. Members of another JSON type count as absent; an absent
/// `extra` is an empty one.
pub enum ChatComponent {
    Text(String),
    Object {
        text: Option<String>,
        translate: Option<String>,
        extra: Vec<ChatComponent>,
        color: Option<String>,
        bold: Option<bool>,
        italic: Option<bool>,
        underlined: Option<bool>,
        strikethrough: Option<bool>,
        obfuscated: Option<bool>,
    },
    /// A number, boolean, array or null.
    Other,
}

/// The `§` code for a named colour; none for an unknown name.
pub open spec fn color_code_spec(color: Seq<char>) -> Seq<char> {
    if color == "black"@ {
        "§0"@
    } else if color == "dark_blue"@ {
        "§1"@
    } else if color == "dark_green"@ {
        "§2"@
    } else if color == "dark_aqua"@ {
        "§3"@
    } else if color == "dark_red"@ {
        "§4"@
    } else if color == "dark_purple"@ {
        "§5"@
    } else if color == "gold"@ {
        "§6"@
    } else if color == "gray"@ {
        "§7"@
    } else if color == "dark_gray"@ {
        "§8"@
    } else if color == "blue"@ {
        "§9"@
    } else if color == "green"@ {
        "§a"@
    } else if color == "aqua"@ {
        "§b"@
    } else if color == "red"@ {
        "§c"@
    } else if color == "light_purple"@ {
        "§d"@
    } else if color == "yellow"@ {
        "§e"@
    } else if color == "white"@ {
        "§f"@
    } else {
        ""@
    }
}

fn color_code(color: &str) -> (r: &'static str)
    ensures
        r@ == color_code_spec(color@),
{
    if str_eq(color, "black") {
        "§0"
    } else if str_eq(color, "dark_blue") {
        "§1"
    } else if str_eq(color, "dark_green") {
        "§2"
    } else if str_eq(color, "dark_aqua") {
        "§3"
    } else if str_eq(color, "dark_red") {
        "§4"
    } else if str_eq(color, "dark_purple") {
        "§5"
    } else if str_eq(color, "gold") {
        "§6"
    } else if str_eq(color, "gray") {
        "§7"
    } else if str_eq(color, "dark_gray") {
        "§8"
    } else if str_eq(color, "blue") {
        "§9"
    } else if str_eq(color, "green") {
        "§a"
    } else if str_eq(color, "aqua") {
        "§b"
    } else if str_eq(color, "red") {
        "§c"
    } else if str_eq(color, "light_purple") {
        "§d"
    } else if str_eq(color, "yellow") {
        "§e"
    } else if str_eq(color, "white") {
        "§f"
    } else {
        ""
    }
}

/// A format flag is on only where it is the JSON value `true`.
pub open spec fn flag_on(f: Option<bool>) -> bool {
    f == Some(true)
}

/// `code` where the flag is on, nothing otherwise.
pub open spec fn code_if(f: Option<bool>, code: Seq<char>) -> Seq<char> {
    if flag_on(f) {
        code
    } else {
        Seq::<char>::empty()
    }
}

/// The `§` codes that stand before an `extra` part: its colour, then bold,
/// italic, underlined, strikethrough and obfuscated where set. A part that
/// is not an object has none.
pub open spec fn color_prefix_spec(c: ChatComponent) -> Seq<char> {
    match c {
        ChatComponent::Object {
            color,
            bold,
            italic,
            underlined,
            strikethrough,
            obfuscated,
            ..
        } => (match color {
            Some(col) => color_code_spec(col@),
            None => Seq::<char>::empty(),
        }) + code_if(bold, "§l"@) + code_if(italic, "§o"@) + code_if(underlined, "§n"@) + code_if(
            strikethrough,
            "§m"@,
        ) + code_if(obfuscated, "§k"@),
        _ => Seq::<char>::empty(),
    }
}

fn append_if(s: &mut String, f: Option<bool>, code: &str)
    ensures
        final(s)@ == old(s)@ + code_if(f, code@),
{
    match f {
        Some(true) => s.append(code),
        _ => {
            assert(old(s)@ + Seq::<char>::empty() =~= old(s)@);
        },
    }
}

/// The `§` codes for the colour and format of an `extra` part.
pub fn extract_color_prefix(value: &ChatComponent) -> (r: String)
    ensures
        r@ == color_prefix_spec(*value),
{
    match value {
        ChatComponent::Object {
            color,
            bold,
            italic,
            underlined,
            strikethrough,
            obfuscated,
            ..
        } => {
            let mut prefix = String::new();
            match color {
                Some(col) => prefix.append(color_code(col.as_str())),
                None => {},
            }
            append_if(&mut prefix, *bold, "§l");
            append_if(&mut prefix, *italic, "§o");
            append_if(&mut prefix, *underlined, "§n");
            append_if(&mut prefix, *strikethrough, "§m");
            append_if(&mut prefix, *obfuscated, "§k");
            assert(prefix@ =~= color_prefix_spec(*value));
            prefix
        },
        _ => String::new(),
    }
}

/// The text of a description: a string is itself; an object gives its
/// `text` (or, without one, its `translate`) followed by each `extra` part's
/// codes and text; anything else gives nothing.
pub open spec fn description_text(c: ChatComponent) -> Seq<char>
    decreases c,
{
    match c {
        ChatComponent::Text(s) => s@,
        ChatComponent::Object { text, translate, extra, .. } => (match text {
            Some(t) => t@,
            None => match translate {
                Some(t) => t@,
                None => Seq::<char>::empty(),
            },
        }) + extras_text(extra@),
        ChatComponent::Other => Seq::<char>::empty(),
    }
}

/// The `extra` parts' codes and texts, one after the other.
pub open spec fn extras_text(items: Seq<ChatComponent>) -> Seq<char>
    decreases items,
{
    if items.len() == 0 {
        Seq::<char>::empty()
    } else {
        extras_text(items.drop_last()) + color_prefix_spec(items.last()) + description_text(
            items.last(),
        )
    }
}

/// The sixteen colour names of chat JSON, in the order of their codes.
pub open spec fn colour_names() -> Seq<Seq<char>> {
    seq![
        "black"@,
        "dark_blue"@,
        "dark_green"@,
        "dark_aqua"@,
        "dark_red"@,
        "dark_purple"@,
        "gold"@,
        "gray"@,
        "dark_gray"@,
        "blue"@,
        "green"@,
        "aqua"@,
        "red"@,
        "light_purple"@,
        "yellow"@,
        "white"@,
    ]
}

/// The `k`-th colour name gets the `k`-th colour code, so that no two names
/// share a code.
pub proof fn lemma_colour_name_code(k: int)
    requires
        0 <= k < 16,
    ensures
        color_code_spec(colour_names()[k]) == seq![section(), colour_code_chars()[k]],
{
    if k == 0 {
        assert(color_code_spec("black"@) =~= seq![section(), '0']) by {
            reveal_strlit("black");
            reveal_strlit("§0");
            assert("black"@.len() == 5);
        }
    } else if k == 1 {
        assert(color_code_spec("dark_blue"@) =~= seq![section(), '1']) by {
            reveal_strlit("dark_blue");
            reveal_strlit("§1");
            assert("dark_blue"@.len() == 9);
            reveal_strlit("black");
            assert("black"@.len() == 5);
        }
    } else if k == 2 {
        assert(color_code_spec("dark_green"@) =~= seq![section(), '2']) by {
            reveal_strlit("dark_green");
            reveal_strlit("§2");
            assert("dark_green"@.len() == 10);
            reveal_strlit("black");
            assert("black"@.len() == 5);
            reveal_strlit("dark_blue");
            assert("dark_blue"@.len() == 9);
        }
    } else if k == 3 {
        assert(color_code_spec("dark_aqua"@) =~= seq![section(), '3']) by {
            reveal_strlit("dark_aqua");
            reveal_strlit("§3");
            assert("dark_aqua"@.len() == 9);
            reveal_strlit("black");
            assert("black"@.len() == 5);
            reveal_strlit("dark_blue");
            assert("dark_blue"@[5] != "dark_aqua"@[5]);
            reveal_strlit("dark_green");
            assert("dark_green"@.len() == 10);
        }
    } else if k == 4 {
        assert(color_code_spec("dark_red"@) =~= seq![section(), '4']) by {
            reveal_strlit("dark_red");
            reveal_strlit("§4");
            assert("dark_red"@.len() == 8);
            reveal_strlit("black");
            assert("black"@.len() == 5);
            reveal_strlit("dark_blue");
            assert("dark_blue"@.len() == 9);
            reveal_strlit("dark_green");
            assert("dark_green"@.len() == 10);
            reveal_strlit("dark_aqua");
            assert("dark_aqua"@.len() == 9);
        }
    } else if k == 5 {
        assert(color_code_spec("dark_purple"@) =~= seq![section(), '5']) by {
            reveal_strlit("dark_purple");
            reveal_strlit("§5");
            assert("dark_purple"@.len() == 11);
            reveal_strlit("black");
            assert("black"@.len() == 5);
            reveal_strlit("dark_blue");
            assert("dark_blue"@.len() == 9);
            reveal_strlit("dark_green");
            assert("dark_green"@.len() == 10);
            reveal_strlit("dark_aqua");
            assert("dark_aqua"@.len() == 9);
            reveal_strlit("dark_red");
            assert("dark_red"@.len() == 8);
        }
    } else if k == 6 {
        assert(color_code_spec("gold"@) =~= seq![section(), '6']) by {
            reveal_strlit("gold");
            reveal_strlit("§6");
            assert("gold"@.len() == 4);
            reveal_strlit("black");
            assert("black"@.len() == 5);
            reveal_strlit("dark_blue");
            assert("dark_blue"@.len() == 9);
            reveal_strlit("dark_green");
            assert("dark_green"@.len() == 10);
            reveal_strlit("dark_aqua");
            assert("dark_aqua"@.len() == 9);
            reveal_strlit("dark_red");
            assert("dark_red"@.len() == 8);
            reveal_strlit("dark_purple");
            assert("dark_purple"@.len() == 11);
        }
    } else if k == 7 {
        assert(color_code_spec("gray"@) =~= seq![section(), '7']) by {
            reveal_strlit("gray");
            reveal_strlit("§7");
            assert("gray"@.len() == 4);
            reveal_strlit("black");
            assert("black"@.len() == 5);
            reveal_strlit("dark_blue");
            assert("dark_blue"@.len() == 9);
            reveal_strlit("dark_green");
            assert("dark_green"@.len() == 10);
            reveal_strlit("dark_aqua");
            assert("dark_aqua"@.len() == 9);
            reveal_strlit("dark_red");
            assert("dark_red"@.len() == 8);
            reveal_strlit("dark_purple");
            assert("dark_purple"@.len() == 11);
            reveal_strlit("gold");
            assert("gold"@[1] != "gray"@[1]);
        }
    } else if k == 8 {
        assert(color_code_spec("dark_gray"@) =~= seq![section(), '8']) by {
            reveal_strlit("dark_gray");
            reveal_strlit("§8");
            assert("dark_gray"@.len() == 9);
            reveal_strlit("black");
            assert("black"@.len() == 5);
            reveal_strlit("dark_blue");
            assert("dark_blue"@[5] != "dark_gray"@[5]);
            reveal_strlit("dark_green");
            assert("dark_green"@.len() == 10);
            reveal_strlit("dark_aqua");
            assert("dark_aqua"@[5] != "dark_gray"@[5]);
            reveal_strlit("dark_red");
            assert("dark_red"@.len() == 8);
            reveal_strlit("dark_purple");
            assert("dark_purple"@.len() == 11);
            reveal_strlit("gold");
            assert("gold"@.len() == 4);
            reveal_strlit("gray");
            assert("gray"@.len() == 4);
        }
    } else if k == 9 {
        assert(color_code_spec("blue"@) =~= seq![section(), '9']) by {
            reveal_strlit("blue");
            reveal_strlit("§9");
            assert("blue"@.len() == 4);
            reveal_strlit("black");
            assert("black"@.len() == 5);
            reveal_strlit("dark_blue");
            assert("dark_blue"@.len() == 9);
            reveal_strlit("dark_green");
            assert("dark_green"@.len() == 10);
            reveal_strlit("dark_aqua");
            assert("dark_aqua"@.len() == 9);
            reveal_strlit("dark_red");
            assert("dark_red"@.len() == 8);
            reveal_strlit("dark_purple");
            assert("dark_purple"@.len() == 11);
            reveal_strlit("gold");
            assert("gold"@[0] != "blue"@[0]);
            reveal_strlit("gray");
            assert("gray"@[0] != "blue"@[0]);
            reveal_strlit("dark_gray");
            assert("dark_gray"@.len() == 9);
        }
    } else if k == 10 {
        assert(color_code_spec("green"@) =~= seq![section(), 'a']) by {
            reveal_strlit("green");
            reveal_strlit("§a");
            assert("green"@.len() == 5);
            reveal_strlit("black");
            assert("black"@[0] != "green"@[0]);
            reveal_strlit("dark_blue");
            assert("dark_blue"@.len() == 9);
            reveal_strlit("dark_green");
            assert("dark_green"@.len() == 10);
            reveal_strlit("dark_aqua");
            assert("dark_aqua"@.len() == 9);
            reveal_strlit("dark_red");
            assert("dark_red"@.len() == 8);
            reveal_strlit("dark_purple");
            assert("dark_purple"@.len() == 11);
            reveal_strlit("gold");
            assert("gold"@.len() == 4);
            reveal_strlit("gray");
            assert("gray"@.len() == 4);
            reveal_strlit("dark_gray");
            assert("dark_gray"@.len() == 9);
            reveal_strlit("blue");
            assert("blue"@.len() == 4);
        }
    } else if k == 11 {
        assert(color_code_spec("aqua"@) =~= seq![section(), 'b']) by {
            reveal_strlit("aqua");
            reveal_strlit("§b");
            assert("aqua"@.len() == 4);
            reveal_strlit("black");
            assert("black"@.len() == 5);
            reveal_strlit("dark_blue");
            assert("dark_blue"@.len() == 9);
            reveal_strlit("dark_green");
            assert("dark_green"@.len() == 10);
            reveal_strlit("dark_aqua");
            assert("dark_aqua"@.len() == 9);
            reveal_strlit("dark_red");
            assert("dark_red"@.len() == 8);
            reveal_strlit("dark_purple");
            assert("dark_purple"@.len() == 11);
            reveal_strlit("gold");
            assert("gold"@[0] != "aqua"@[0]);
            reveal_strlit("gray");
            assert("gray"@[0] != "aqua"@[0]);
            reveal_strlit("dark_gray");
            assert("dark_gray"@.len() == 9);
            reveal_strlit("blue");
            assert("blue"@[0] != "aqua"@[0]);
            reveal_strlit("green");
            assert("green"@.len() == 5);
        }
    } else if k == 12 {
        assert(color_code_spec("red"@) =~= seq![section(), 'c']) by {
            reveal_strlit("red");
            reveal_strlit("§c");
            assert("red"@.len() == 3);
            reveal_strlit("black");
            assert("black"@.len() == 5);
            reveal_strlit("dark_blue");
            assert("dark_blue"@.len() == 9);
            reveal_strlit("dark_green");
            assert("dark_green"@.len() == 10);
            reveal_strlit("dark_aqua");
            assert("dark_aqua"@.len() == 9);
            reveal_strlit("dark_red");
            assert("dark_red"@.len() == 8);
            reveal_strlit("dark_purple");
            assert("dark_purple"@.len() == 11);
            reveal_strlit("gold");
            assert("gold"@.len() == 4);
            reveal_strlit("gray");
            assert("gray"@.len() == 4);
            reveal_strlit("dark_gray");
            assert("dark_gray"@.len() == 9);
            reveal_strlit("blue");
            assert("blue"@.len() == 4);
            reveal_strlit("green");
            assert("green"@.len() == 5);
            reveal_strlit("aqua");
            assert("aqua"@.len() == 4);
        }
    } else if k == 13 {
        assert(color_code_spec("light_purple"@) =~= seq![section(), 'd']) by {
            reveal_strlit("light_purple");
            reveal_strlit("§d");
            assert("light_purple"@.len() == 12);
            reveal_strlit("black");
            assert("black"@.len() == 5);
            reveal_strlit("dark_blue");
            assert("dark_blue"@.len() == 9);
            reveal_strlit("dark_green");
            assert("dark_green"@.len() == 10);
            reveal_strlit("dark_aqua");
            assert("dark_aqua"@.len() == 9);
            reveal_strlit("dark_red");
            assert("dark_red"@.len() == 8);
            reveal_strlit("dark_purple");
            assert("dark_purple"@.len() == 11);
            reveal_strlit("gold");
            assert("gold"@.len() == 4);
            reveal_strlit("gray");
            assert("gray"@.len() == 4);
            reveal_strlit("dark_gray");
            assert("dark_gray"@.len() == 9);
            reveal_strlit("blue");
            assert("blue"@.len() == 4);
            reveal_strlit("green");
            assert("green"@.len() == 5);
            reveal_strlit("aqua");
            assert("aqua"@.len() == 4);
            reveal_strlit("red");
            assert("red"@.len() == 3);
        }
    } else if k == 14 {
        assert(color_code_spec("yellow"@) =~= seq![section(), 'e']) by {
            reveal_strlit("yellow");
            reveal_strlit("§e");
            assert("yellow"@.len() == 6);
            reveal_strlit("black");
            assert("black"@.len() == 5);
            reveal_strlit("dark_blue");
            assert("dark_blue"@.len() == 9);
            reveal_strlit("dark_green");
            assert("dark_green"@.len() == 10);
            reveal_strlit("dark_aqua");
            assert("dark_aqua"@.len() == 9);
            reveal_strlit("dark_red");
            assert("dark_red"@.len() == 8);
            reveal_strlit("dark_purple");
            assert("dark_purple"@.len() == 11);
            reveal_strlit("gold");
            assert("gold"@.len() == 4);
            reveal_strlit("gray");
            assert("gray"@.len() == 4);
            reveal_strlit("dark_gray");
            assert("dark_gray"@.len() == 9);
            reveal_strlit("blue");
            assert("blue"@.len() == 4);
            reveal_strlit("green");
            assert("green"@.len() == 5);
            reveal_strlit("aqua");
            assert("aqua"@.len() == 4);
            reveal_strlit("red");
            assert("red"@.len() == 3);
            reveal_strlit("light_purple");
            assert("light_purple"@.len() == 12);
        }
    } else if k == 15 {
        assert(color_code_spec("white"@) =~= seq![section(), 'f']) by {
            reveal_strlit("white");
            reveal_strlit("§f");
            assert("white"@.len() == 5);
            reveal_strlit("black");
            assert("black"@[0] != "white"@[0]);
            reveal_strlit("dark_blue");
            assert("dark_blue"@.len() == 9);
            reveal_strlit("dark_green");
            assert("dark_green"@.len() == 10);
            reveal_strlit("dark_aqua");
            assert("dark_aqua"@.len() == 9);
            reveal_strlit("dark_red");
            assert("dark_red"@.len() == 8);
            reveal_strlit("dark_purple");
            assert("dark_purple"@.len() == 11);
            reveal_strlit("gold");
            assert("gold"@.len() == 4);
            reveal_strlit("gray");
            assert("gray"@.len() == 4);
            reveal_strlit("dark_gray");
            assert("dark_gray"@.len() == 9);
            reveal_strlit("blue");
            assert("blue"@.len() == 4);
            reveal_strlit("green");
            assert("green"@[0] != "white"@[0]);
            reveal_strlit("aqua");
            assert("aqua"@.len() == 4);
            reveal_strlit("red");
            assert("red"@.len() == 3);
            reveal_strlit("light_purple");
            assert("light_purple"@.len() == 12);
            reveal_strlit("yellow");
            assert("yellow"@.len() == 6);
        }
    }
}

/// A name that is none of the sixteen colour names gets no code.
pub proof fn lemma_unknown_colour_name(color: Seq<char>)
    requires
        !colour_names().contains(color),
    ensures
        color_code_spec(color) == Seq::<char>::empty(),
{
    reveal_strlit("");
    let names = colour_names();
    assert(names[0] != color);
    assert(names[1] != color);
    assert(names[2] != color);
    assert(names[3] != color);
    assert(names[4] != color);
    assert(names[5] != color);
    assert(names[6] != color);
    assert(names[7] != color);
    assert(names[8] != color);
    assert(names[9] != color);
    assert(names[10] != color);
    assert(names[11] != color);
    assert(names[12] != color);
    assert(names[13] != color);
    assert(names[14] != color);
    assert(names[15] != color);
}

/// A part with no colour and one format flag set is preceded by that flag's
/// code alone: bold `§l`, italic `§o`, underlined `§n`, strikethrough `§m`,
/// obfuscated `§k`.
pub proof fn lemma_format_flag_codes(c: ChatComponent)
    requires
        c is Object,
        c->color is None,
    ensures
        flag_on(c->bold) && !flag_on(c->italic) && !flag_on(c->underlined) && !flag_on(
            c->strikethrough,
        ) && !flag_on(c->obfuscated) ==> color_prefix_spec(c) == seq![section(), 'l'],
        !flag_on(c->bold) && flag_on(c->italic) && !flag_on(c->underlined) && !flag_on(
            c->strikethrough,
        ) && !flag_on(c->obfuscated) ==> color_prefix_spec(c) == seq![section(), 'o'],
        !flag_on(c->bold) && !flag_on(c->italic) && flag_on(c->underlined) && !flag_on(
            c->strikethrough,
        ) && !flag_on(c->obfuscated) ==> color_prefix_spec(c) == seq![section(), 'n'],
        !flag_on(c->bold) && !flag_on(c->italic) && !flag_on(c->underlined) && flag_on(
            c->strikethrough,
        ) && !flag_on(c->obfuscated) ==> color_prefix_spec(c) == seq![section(), 'm'],
        !flag_on(c->bold) && !flag_on(c->italic) && !flag_on(c->underlined) && !flag_on(
            c->strikethrough,
        ) && flag_on(c->obfuscated) ==> color_prefix_spec(c) == seq![section(), 'k'],
{
    reveal_strlit("§l");
    reveal_strlit("§o");
    reveal_strlit("§n");
    reveal_strlit("§m");
    reveal_strlit("§k");
    let p = color_prefix_spec(c);
    if flag_on(c->bold) && !flag_on(c->italic) && !flag_on(c->underlined) && !flag_on(
        c->strikethrough,
    ) && !flag_on(c->obfuscated) {
        assert(p =~= seq![section(), 'l']);
    }
    if !flag_on(c->bold) && flag_on(c->italic) && !flag_on(c->underlined) && !flag_on(
        c->strikethrough,
    ) && !flag_on(c->obfuscated) {
        assert(p =~= seq![section(), 'o']);
    }
    if !flag_on(c->bold) && !flag_on(c->italic) && flag_on(c->underlined) && !flag_on(
        c->strikethrough,
    ) && !flag_on(c->obfuscated) {
        assert(p =~= seq![section(), 'n']);
    }
    if !flag_on(c->bold) && !flag_on(c->italic) && !flag_on(c->underlined) && flag_on(
        c->strikethrough,
    ) && !flag_on(c->obfuscated) {
        assert(p =~= seq![section(), 'm']);
    }
    if !flag_on(c->bold) && !flag_on(c->italic) && !flag_on(c->underlined) && !flag_on(
        c->strikethrough,
    ) && flag_on(c->obfuscated) {
        assert(p =~= seq![section(), 'k']);
    }
}

/// An `extra` part with the `k`-th colour name and no format flag set is
/// preceded by exactly the `k`-th colour code, which the terminal shows as
/// that colour's escape sequence.
pub proof fn lemma_coloured_part_prefix(c: ChatComponent, k: int)
    requires
        0 <= k < 16,
        c is Object,
        c->color matches Some(col) && col@ == colour_names()[k],
        !flag_on(c->bold),
        !flag_on(c->italic),
        !flag_on(c->underlined),
        !flag_on(c->strikethrough),
        !flag_on(c->obfuscated),
    ensures
        color_prefix_spec(c) == seq![section(), colour_code_chars()[k]],
        ansi_for(colour_code_chars()[k]) == Some(colour_sequence(k)),
{
    lemma_colour_name_code(k);
    lemma_colour_code_sequences(k);
    assert(color_prefix_spec(c) =~= seq![section(), colour_code_chars()[k]]);
}

/// A description with a text and one `extra` part reads as the text, the
/// part's codes and the part's own text.
pub proof fn lemma_description_with_one_part(c: ChatComponent, part: ChatComponent)
    requires
        c is Object,
        c->text is Some,
        c->extra@ == seq![part],
    ensures
        description_text(c) == c->text.unwrap()@ + color_prefix_spec(part) + description_text(part),
{
    let items = c->extra@;
    assert(items.drop_last() =~= Seq::<ChatComponent>::empty());
    assert(extras_text(items.drop_last()) =~= Seq::<char>::empty());
    assert(description_text(c) =~= c->text.unwrap()@ + (Seq::<char>::empty() + color_prefix_spec(part)
        + description_text(part)));
}

/// Reads the MOTD text out of a status response's `description`.
pub fn parse_description(value: &ChatComponent) -> (r: String)
    ensures
        r@ == description_text(*value),
    decreases value,
{
    match value {
        ChatComponent::Text(s) => s.clone(),
        ChatComponent::Object { text, translate, extra, .. } => {
            let mut result = String::new();
            match text {
                Some(t) => result.append(t.as_str()),
                None => match translate {
                    Some(t) => result.append(t.as_str()),
                    None => {},
                },
            }
            let ghost head = result@;
            let mut i: usize = 0;
            assert(extra@.take(0) =~= Seq::<ChatComponent>::empty());
            while i < extra.len()
                invariant
                    *value is Object,
                    value->extra == *extra,
                    i <= extra.len(),
                    result@ == head + extras_text(extra@.take(i as int)),
                decreases extra.len() - i,
            {
                let item = &extra[i];
                let prefix = extract_color_prefix(item);
                result.append(prefix.as_str());
                proof {
                    assert(decreases_to!(*value => value->extra));
                    assert(decreases_to!(*value => *item));
                }
                let inner = parse_description(item);
                result.append(inner.as_str());
                let ghost t = extra@.take(i + 1);
                assert(t.drop_last() =~= extra@.take(i as int));
                assert(t.last() == extra@[i as int]);
                i = i + 1;
                assert(result@ =~= head + extras_text(extra@.take(i as int)));
            }
            assert(extra@.take(extra.len() as int) =~= extra@);
            result
        },
        ChatComponent::Other => String::new(),
    }
}

/// The members of a status response that the MOTD reads: `description`,
/// `players.max`, `players.online`, `version.name`, `version.protocol`.
pub struct StatusResponse {
    pub description: ChatComponent,
    pub players_max: i32,
    pub players_online: i32,
    pub version_name: String,
    pub version_protocol: i32,
}

/// The record of a server that answered: status `online`, the address
/// queried, the description's text, the version and player counts of the
/// response, and the round trip measured.
pub fn status_to_info(host: &str, response: StatusResponse, delay: i64) -> (r: MotdJavaInfo)
    ensures
        r.status@ == "online"@,
        r.host@ == host@,
        r.motd@ == description_text(response.description),
        r.agreement == response.version_protocol,
        r.version@ == response.version_name@,
        r.online == response.players_online,
        r.max == response.players_max,
        r.delay == delay,
{
    let motd = parse_description(&response.description);
    MotdJavaInfo {
        status: String::from_str("online"),
        host: String::from_str(host),
        motd,
        agreement: response.version_protocol,
        version: response.version_name,
        online: response.players_online,
        max: response.players_max,
        delay,
    }
}

} // verus!
