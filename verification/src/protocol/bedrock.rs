//! Bedrock Edition status: the RakNet Unconnected Ping over UDP. The
//! library builds the ping and reads the pong's `;`-separated server
//! description into [`MotdBEInfo`].
use vstd::prelude::*;
use vstd::utf8::{decode_utf8, valid_utf8};
use crate::text::{
    decimal, int_error_message, int_error_text, parse_i32, parse_i32_spec, split_char,
    split_on, trim_end, trim_end_char, u64_to_decimal,
};

verus! {

// ---------------------------------------------------------------------------
// Results and errors
// ---------------------------------------------------------------------------
/// What a Bedrock Edition server reports of itself.
pub struct MotdBEInfo {
    /// `online` or `offline`.
    pub status: String,
    /// The address that was queried.
    pub host: String,
    /// The message of the day, with `§` formatting codes.
    pub motd: String,
    /// The protocol version.
    pub agreement: i32,
    /// The game version's name.
    pub version: String,
    /// Players online.
    pub online: i32,
    /// Player slots.
    pub max: i32,
    /// The world's name.
    pub level_name: String,
    /// The game mode.
    pub game_mode: String,
    /// The server's unique id.
    pub server_unique_id: String,
    /// Round trip in milliseconds.
    pub delay: i64,
}

impl MotdBEInfo {
    /// The record of a server that is offline: status `offline`, empty
    /// texts, zero numbers.
    pub fn offline() -> (r: Self)
        ensures
            r.status@ == "offline"@,
            r.host@.len() == 0,
            r.motd@.len() == 0,
            r.version@.len() == 0,
            r.level_name@.len() == 0,
            r.game_mode@.len() == 0,
            r.server_unique_id@.len() == 0,
            r.agreement == 0,
            r.online == 0,
            r.max == 0,
            r.delay == 0,
    {
        MotdBEInfo {
            status: String::from_str("offline"),
            host: String::new(),
            motd: String::new(),
            agreement: 0,
            version: String::new(),
            online: 0,
            max: 0,
            level_name: String::new(),
            game_mode: String::new(),
            server_unique_id: String::new(),
            delay: 0,
        }
    }
}

/// Why a Bedrock Edition query failed. I/O failures carry the system's
/// message.
#[derive(Debug)]
pub enum BedrockError {
    EmptyHost,
    SocketBind(String),
    Connect(String),
    SetTimeout(String),
    SendFailed(String),
    RecvFailed(String),
    ResponseTooShort { received: usize },
    InsufficientFields { found: usize, expected: usize },
    ParseField { field: String, value: String, error: String },
}

/// A [`BedrockError`] with its texts as character sequences.
pub enum BedrockErrorView {
    EmptyHost,
    SocketBind(Seq<char>),
    Connect(Seq<char>),
    SetTimeout(Seq<char>),
    SendFailed(Seq<char>),
    RecvFailed(Seq<char>),
    ResponseTooShort { received: usize },
    InsufficientFields { found: usize, expected: usize },
    ParseField { field: Seq<char>, value: Seq<char>, error: Seq<char> },
}

impl View for BedrockError {
    type V = BedrockErrorView;

    open spec fn view(&self) -> BedrockErrorView {
        match self {
            BedrockError::EmptyHost => BedrockErrorView::EmptyHost,
            BedrockError::SocketBind(m) => BedrockErrorView::SocketBind(m@),
            BedrockError::Connect(m) => BedrockErrorView::Connect(m@),
            BedrockError::SetTimeout(m) => BedrockErrorView::SetTimeout(m@),
            BedrockError::SendFailed(m) => BedrockErrorView::SendFailed(m@),
            BedrockError::RecvFailed(m) => BedrockErrorView::RecvFailed(m@),
            BedrockError::ResponseTooShort { received } => BedrockErrorView::ResponseTooShort {
                received: *received,
            },
            BedrockError::InsufficientFields { found, expected } =>
                BedrockErrorView::InsufficientFields { found: *found, expected: *expected },
            BedrockError::ParseField { field, value, error } => BedrockErrorView::ParseField {
                field: field@,
                value: value@,
                error: error@,
            },
        }
    }
}

/// The text shown for each error.
pub open spec fn bedrock_error_message(e: BedrockErrorView) -> Seq<char> {
    match e {
        BedrockErrorView::EmptyHost => "服务器地址为空"@,
        BedrockErrorView::SocketBind(m) => "UDP Socket 绑定失败: "@ + m,
        BedrockErrorView::Connect(m) => "UDP 连接失败 (端口可能不通): "@ + m,
        BedrockErrorView::SetTimeout(m) => "设置超时失败: "@ + m,
        BedrockErrorView::SendFailed(m) => "发送 Unconnected Ping 数据包失败: "@ + m,
        BedrockErrorView::RecvFailed(m) => "接收响应超时或失败 (服务器未返回信息): "@ + m,
        BedrockErrorView::ResponseTooShort { received } => "服务器返回数据过短 (收到 "@ + decimal(
            received as nat,
        ) + " 字节, 至少需要 34 字节)"@,
        BedrockErrorView::InsufficientFields { found, expected } => "服务器返回字段不足 (收到 "@
            + decimal(found as nat) + " 个字段, 需要至少 "@ + decimal(expected as nat) + " 个)"@,
        BedrockErrorView::ParseField { field, value, error } => "解析字段 '"@ + field
            + "' 失败: 值='"@ + value + "', 错误="@ + error,
    }
}

fn prefixed(prefix: &str, m: &String) -> (r: String)
    ensures
        r@ == prefix@ + m@,
{
    let mut r = String::from_str(prefix);
    r.append(m.as_str());
    r
}

impl BedrockError {
    /// The message to show for this error.
    pub fn message(&self) -> (r: String)
        ensures
            r@ == bedrock_error_message(self@),
    {
        match self {
            BedrockError::EmptyHost => String::from_str("服务器地址为空"),
            BedrockError::SocketBind(m) => prefixed("UDP Socket 绑定失败: ", m),
            BedrockError::Connect(m) => prefixed("UDP 连接失败 (端口可能不通): ", m),
            BedrockError::SetTimeout(m) => prefixed("设置超时失败: ", m),
            BedrockError::SendFailed(m) => prefixed("发送 Unconnected Ping 数据包失败: ", m),
            BedrockError::RecvFailed(m) => prefixed("接收响应超时或失败 (服务器未返回信息): ", m),
            BedrockError::ResponseTooShort { received } => {
                let mut r = String::from_str("服务器返回数据过短 (收到 ");
                let n = u64_to_decimal(*received as u64);
                r.append(n.as_str());
                r.append(" 字节, 至少需要 34 字节)");
                r
            },
            BedrockError::InsufficientFields { found, expected } => {
                let mut r = String::from_str("服务器返回字段不足 (收到 ");
                let f = u64_to_decimal(*found as u64);
                r.append(f.as_str());
                r.append(" 个字段, 需要至少 ");
                let e = u64_to_decimal(*expected as u64);
                r.append(e.as_str());
                r.append(" 个)");
                r
            },
            BedrockError::ParseField { field, value, error } => {
                let mut r = String::from_str("解析字段 '");
                r.append(field.as_str());
                r.append("' 失败: 值='");
                r.append(value.as_str());
                r.append("', 错误=");
                r.append(error.as_str());
                r
            },
        }
    }
}

// ---------------------------------------------------------------------------
// The ping
// ---------------------------------------------------------------------------
/// The default port of a Bedrock Edition server.
pub const DEFAULT_PORT: u16 = 19132;

/// An empty address is refused before any socket is opened.
pub fn bedrock_target(host: &str) -> (r: Result<(), BedrockError>)
    ensures
        r is Ok <==> host@.len() > 0,
        r matches Err(e) ==> e@ == BedrockErrorView::EmptyHost,
{
    if host.is_empty() {
        Err(BedrockError::EmptyHost)
    } else {
        Ok(())
    }
}

/// The low `n` bytes of `v`, most significant first.
pub open spec fn be_bytes(v: nat, n: nat) -> Seq<u8>
    decreases n,
{
    if n == 0 {
        Seq::<u8>::empty()
    } else {
        be_bytes(v / 256, (n - 1) as nat).push((v % 256) as u8)
    }
}

/// The value of bytes read most significant first.
pub open spec fn be_value(bytes: Seq<u8>) -> nat
    decreases bytes.len(),
{
    if bytes.len() == 0 {
        0
    } else {
        be_value(bytes.drop_last()) * 256 + bytes.last() as nat
    }
}

/// RakNet's offline message id.
pub open spec fn raknet_magic() -> Seq<u8> {
    seq![0x00u8, 0xFF, 0xFF, 0x00, 0xFE, 0xFE, 0xFE, 0xFE, 0xFD, 0xFD, 0xFD, 0xFD]
}

/// The Unconnected Ping: packet id 1, the send time in milliseconds
/// (8 bytes, big-endian), the RakNet magic, the client id
/// `12 34 56 78 00`, and a zero client GUID (8 bytes).
pub open spec fn ping_packet(now_ms: u64) -> Seq<u8> {
    seq![0x01u8] + be_bytes(now_ms as nat, 8) + raknet_magic() + seq![0x12u8, 0x34, 0x56, 0x78, 0x00]
        + be_bytes(0, 8)
}

fn push_be(buf: &mut Vec<u8>, v: u64, n: u32)
    ensures
        final(buf)@ == old(buf)@ + be_bytes(v as nat, n as nat),
    decreases n,
{
    if n > 0 {
        push_be(buf, v / 256, n - 1);
        buf.push((v % 256) as u8);
        assert(buf@ =~= old(buf)@ + be_bytes(v as nat, n as nat));
    } else {
        assert(buf@ =~= old(buf)@ + be_bytes(v as nat, n as nat));
    }
}

/// Builds the Unconnected Ping sent at `now_ms` milliseconds since the
/// epoch.
pub fn build_unconnected_ping(now_ms: u64) -> (r: Vec<u8>)
    ensures
        r@ == ping_packet(now_ms),
{
    let mut r: Vec<u8> = Vec::new();
    r.push(0x01);
    push_be(&mut r, now_ms, 8);
    let magic: [u8; 12] = [0x00, 0xFF, 0xFF, 0x00, 0xFE, 0xFE, 0xFE, 0xFE, 0xFD, 0xFD, 0xFD, 0xFD];
    let mut i: usize = 0;
    let ghost start = r@;
    while i < 12
        invariant
            i <= 12,
            magic@ == raknet_magic(),
            r@ == start + raknet_magic().take(i as int),
        decreases 12 - i,
    {
        r.push(magic[i]);
        i = i + 1;
        assert(r@ =~= start + raknet_magic().take(i as int));
    }
    r.push(0x12);
    r.push(0x34);
    r.push(0x56);
    r.push(0x78);
    r.push(0x00);
    push_be(&mut r, 0, 8);
    assert(raknet_magic().take(12) =~= raknet_magic());
    assert(r@ =~= ping_packet(now_ms));
    r
}

/// The ping is 34 bytes long, and bytes 1 to 8 read big-endian give back
/// the send time.
pub proof fn lemma_ping_carries_time(now_ms: u64)
    ensures
        ping_packet(now_ms).len() == 34,
        be_value(ping_packet(now_ms).subrange(1, 9)) == now_ms,
{
    lemma_be_bytes_len(now_ms as nat, 8);
    lemma_be_bytes_len(0, 8);
    assert(ping_packet(now_ms).subrange(1, 9) =~= be_bytes(now_ms as nat, 8));
    lemma_be_roundtrip(now_ms as nat, 8);
    assert(now_ms < 0x1_0000_0000_0000_0000);
    assert(pow256(0) == 1);
    assert(pow256(1) == 0x100);
    assert(pow256(2) == 0x1_0000);
    assert(pow256(3) == 0x100_0000);
    assert(pow256(4) == 0x1_0000_0000);
    assert(pow256(5) == 0x100_0000_0000);
    assert(pow256(6) == 0x1_0000_0000_0000);
    assert(pow256(7) == 0x100_0000_0000_0000);
    assert(pow256(8) == 0x1_0000_0000_0000_0000);
    vstd::arithmetic::div_mod::lemma_small_mod(now_ms as nat, pow256(8));
}

proof fn lemma_be_bytes_len(v: nat, n: nat)
    ensures
        be_bytes(v, n).len() == n,
    decreases n,
{
    if n > 0 {
        lemma_be_bytes_len(v / 256, (n - 1) as nat);
    }
}

/// 256 to the power `n`.
pub open spec fn pow256(n: nat) -> nat
    decreases n,
{
    if n == 0 {
        1
    } else {
        256 * pow256((n - 1) as nat)
    }
}

proof fn lemma_be_roundtrip(v: nat, n: nat)
    ensures
        be_value(be_bytes(v, n)) == v % pow256(n),
    decreases n,
{
    if n > 0 {
        lemma_be_roundtrip(v / 256, (n - 1) as nat);
        let b = be_bytes(v, n);
        assert(b.drop_last() =~= be_bytes(v / 256, (n - 1) as nat));
        let p = pow256((n - 1) as nat);
        assert(p > 0) by {
            lemma_pow256_positive((n - 1) as nat);
        }
        vstd::arithmetic::div_mod::lemma_breakdown(v as int, 256, p as int);
    }
}

proof fn lemma_pow256_positive(n: nat)
    ensures
        pow256(n) > 0,
    decreases n,
{
    if n > 0 {
        lemma_pow256_positive((n - 1) as nat);
    }
}

// ---------------------------------------------------------------------------
// The pong
// ---------------------------------------------------------------------------
/// The result of std's `String::from_utf8_lossy` on a byte string: the
/// characters it encodes, each invalid sequence replaced by U+FFFD.
pub uninterp spec fn utf8_lossy(bytes: Seq<u8>) -> Seq<char>;

/// std's `String::from_utf8_lossy`. Trusted: the result is `utf8_lossy` of
/// the bytes, and, as documented, the decoded characters where the bytes
/// are valid UTF-8. How invalid sequences are replaced is not stated.
#[verifier::external_body]
fn from_utf8_lossy(bytes: &[u8]) -> (r: String)
    ensures
        r@ == utf8_lossy(bytes@),
        valid_utf8(bytes@) ==> r@ == decode_utf8(bytes@),
{
    String::from_utf8_lossy(bytes).into_owned()
}

/// The number of `;`-separated fields a pong must carry.
pub open spec fn required_fields() -> usize {
    10
}

/// The fields of a pong's server description: the text without trailing
/// NUL characters, split at `;`.
pub open spec fn description_fields(text: Seq<char>) -> Seq<Seq<char>> {
    split_char(trim_end_char(text, '\0'), ';')
}

/// A field parsed as the number `str::parse::<i32>` gives, or the error it
/// is reported with.
pub open spec fn number_field(name: Seq<char>, value: Seq<char>) -> Result<i32, BedrockErrorView> {
    match parse_i32_spec(value) {
        Ok(n) => Ok(n),
        Err(k) => Err(BedrockErrorView::ParseField { field: name, value, error: int_error_text(k) }),
    }
}

/// What a pong's server description gives: too few fields (under 10) are
/// an error; otherwise fields 2, 4 and 5 must be numbers (protocol, players
/// online, player slots, checked in that order), and the record holds field
/// 1 as MOTD, 3 as version, 6 as server id, 7 as level name and 8 as game
/// mode.
pub open spec fn description_outcome(text: Seq<char>) -> Result<
    (Seq<char>, i32, Seq<char>, i32, i32, Seq<char>, Seq<char>, Seq<char>),
    BedrockErrorView,
> {
    let f = description_fields(text);
    if f.len() < 10 {
        Err(BedrockErrorView::InsufficientFields { found: f.len() as usize, expected: 10 })
    } else {
        match number_field("protocol_version"@, f[2]) {
            Err(e) => Err(e),
            Ok(protocol) => match number_field("player_count"@, f[4]) {
                Err(e) => Err(e),
                Ok(online) => match number_field("max_player_count"@, f[5]) {
                    Err(e) => Err(e),
                    Ok(max) => Ok((f[1], protocol, f[3], online, max, f[6], f[7], f[8])),
                },
            },
        }
    }
}

/// What a pong gives: a response under 34 bytes is too short; otherwise
/// the bytes after the first 33 are read as UTF-8 (lossily) and give the
/// server description.
pub open spec fn pong_outcome(response: Seq<u8>) -> Result<
    (Seq<char>, i32, Seq<char>, i32, i32, Seq<char>, Seq<char>, Seq<char>),
    BedrockErrorView,
> {
    if response.len() < 34 {
        Err(BedrockErrorView::ResponseTooShort { received: response.len() as usize })
    } else {
        description_outcome(utf8_lossy(response.skip(33)))
    }
}

/// The record built from an outcome, for a server at `host` that answered
/// after `delay` milliseconds.
pub open spec fn info_matches(
    info: MotdBEInfo,
    fields: (Seq<char>, i32, Seq<char>, i32, i32, Seq<char>, Seq<char>, Seq<char>),
    host: Seq<char>,
    delay: i64,
) -> bool {
    let (motd, protocol, version, online, max, id, level, mode) = fields;
    &&& info.status@ == "online"@
    &&& info.host@ == host
    &&& info.motd@ == motd
    &&& info.agreement == protocol
    &&& info.version@ == version
    &&& info.online == online
    &&& info.max == max
    &&& info.server_unique_id@ == id
    &&& info.level_name@ == level
    &&& info.game_mode@ == mode
    &&& info.delay == delay
}

fn number_field_exec(name: &str, value: &String) -> (r: Result<i32, BedrockError>)
    ensures
        match number_field(name@, value@) {
            Ok(n) => r == Ok::<i32, BedrockError>(n),
            Err(e) => r matches Err(x) && x@ == e,
        },
{
    match parse_i32(value.as_str()) {
        Ok(n) => Ok(n),
        Err(k) => Err(
            BedrockError::ParseField {
                field: String::from_str(name),
                value: value.clone(),
                error: int_error_message(k),
            },
        ),
    }
}

/// Reads a pong's server description (the text after its 33-byte header)
/// into the record of a server at `host` that answered after `delay`
/// milliseconds.
pub fn parse_server_description(text: &str, host: &str, delay: i64) -> (r: Result<
    MotdBEInfo,
    BedrockError,
>)
    ensures
        match description_outcome(text@) {
            Err(e) => r matches Err(x) && x@ == e,
            Ok(fields) => r matches Ok(info) && info_matches(info, fields, host@, delay),
        },
{
    let trimmed = trim_end(text, '\0');
    let fields = split_on(trimmed.as_str(), ';');
    assert(fields.deep_view() == description_fields(text@));
    let count = fields.len();
    if count < 10 {
        return Err(BedrockError::InsufficientFields { found: count, expected: 10 });
    }
    assert(forall|i: int| 0 <= i < fields.len() ==> fields@[i]@ == #[trigger] fields.deep_view()[i]);
    let protocol = match number_field_exec("protocol_version", &fields[2]) {
        Ok(v) => v,
        Err(e) => {
            return Err(e);
        },
    };
    let online = match number_field_exec("player_count", &fields[4]) {
        Ok(v) => v,
        Err(e) => {
            return Err(e);
        },
    };
    let max = match number_field_exec("max_player_count", &fields[5]) {
        Ok(v) => v,
        Err(e) => {
            return Err(e);
        },
    };
    Ok(
        MotdBEInfo {
            status: String::from_str("online"),
            host: String::from_str(host),
            motd: fields[1].clone(),
            agreement: protocol,
            version: fields[3].clone(),
            online,
            max,
            level_name: fields[7].clone(),
            game_mode: fields[8].clone(),
            server_unique_id: fields[6].clone(),
            delay,
        },
    )
}

/// Reads an Unconnected Pong received from `host` after `delay`
/// milliseconds into the server's record.
pub fn parse_unconnected_pong(response: &[u8], host: &str, delay: i64) -> (r: Result<
    MotdBEInfo,
    BedrockError,
>)
    ensures
        match pong_outcome(response@) {
            Err(e) => r matches Err(x) && x@ == e,
            Ok(fields) => r matches Ok(info) && info_matches(info, fields, host@, delay),
        },
{
    let n = response.len();
    if n < 34 {
        return Err(BedrockError::ResponseTooShort { received: n });
    }
    let (_, info_bytes) = response.split_at(33);
    assert(info_bytes@ =~= response@.skip(33));
    let text = from_utf8_lossy(info_bytes);
    parse_server_description(text.as_str(), host, delay)
}

} // verus!
