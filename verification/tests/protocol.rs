use motd_cli::protocol::bedrock::{
    bedrock_target, build_unconnected_ping, parse_server_description, parse_unconnected_pong,
    BedrockError, MotdBEInfo,
};
use motd_cli::protocol::java::{
    build_handshake, extract_color_prefix, java_target, parse_description, status_request,
    status_to_info, ChatComponent, JavaError, MotdJavaInfo, ReadRequest, ResponseStage,
    StatusReader, StatusResponse,
};
use motd_cli::protocol::varint::{
    decode_varint, varint_feed, varint_start, write_varint, VarIntDecoded, VarIntProgress,
};

fn encode(v: i32) -> Vec<u8> {
    let mut buf = Vec::new();
    write_varint(&mut buf, v);
    buf
}

#[test]
fn write_varint_known_values() {
    assert_eq!(encode(0), vec![0x00]);
    assert_eq!(encode(1), vec![0x01]);
    assert_eq!(encode(127), vec![0x7f]);
    assert_eq!(encode(128), vec![0x80, 0x01]);
    assert_eq!(encode(255), vec![0xff, 0x01]);
    assert_eq!(encode(575), vec![0xbf, 0x04]);
    assert_eq!(encode(25565), vec![0xdd, 0xc7, 0x01]);
    assert_eq!(encode(2097151), vec![0xff, 0xff, 0x7f]);
    assert_eq!(encode(2147483647), vec![0xff, 0xff, 0xff, 0xff, 0x07]);
    assert_eq!(encode(-1), vec![0xff, 0xff, 0xff, 0xff, 0x0f]);
    assert_eq!(encode(-2147483648), vec![0x80, 0x80, 0x80, 0x80, 0x08]);
}

#[test]
fn write_varint_appends() {
    let mut buf = vec![9u8];
    write_varint(&mut buf, 300);
    assert_eq!(buf, vec![9, 0xac, 0x02]);
}

#[test]
fn varint_roundtrip_with_trailing_bytes() {
    for v in [0, 1, -1, 127, 128, 300, 25565, i32::MAX, i32::MIN, -300] {
        let mut bytes = encode(v);
        let n = bytes.len();
        assert!((1..=5).contains(&n));
        bytes.extend_from_slice(&[0xff, 0x00, 0x12]);
        assert_eq!(decode_varint(&bytes), VarIntDecoded::Value(v, n));
    }
}

#[test]
fn decode_varint_errors() {
    assert_eq!(decode_varint(&[]), VarIntDecoded::Incomplete);
    assert_eq!(decode_varint(&[0x80, 0x80]), VarIntDecoded::Incomplete);
    assert_eq!(decode_varint(&[0x80, 0x80, 0x80, 0x80, 0x80, 0x01]), VarIntDecoded::TooLarge);
    assert_eq!(decode_varint(&[0xff, 0xff, 0xff, 0xff, 0x7f]), VarIntDecoded::Value(-1, 5));
}

#[test]
fn varint_feed_steps() {
    let s = varint_start();
    match varint_feed(s, 0xdd) {
        VarIntProgress::Pending(s2) => match varint_feed(s2, 0xc7) {
            VarIntProgress::Pending(s3) => match varint_feed(s3, 0x01) {
                VarIntProgress::Complete(v) => assert_eq!(v, 25565),
                other => panic!("{:?}", other),
            },
            other => panic!("{:?}", other),
        },
        other => panic!("{:?}", other),
    }
}

#[test]
fn handshake_bytes() {
    let packet = build_handshake("localhost", 25565);
    let mut body = vec![0x00, 0xbf, 0x04, 0x09];
    body.extend_from_slice(b"localhost");
    body.extend_from_slice(&[0x63, 0xdd, 0x01]);
    let mut expected = vec![body.len() as u8];
    expected.extend_from_slice(&body);
    assert_eq!(packet, expected);
}

#[test]
fn handshake_address_is_utf8() {
    let packet = build_handshake("é", 1);
    assert_eq!(packet, vec![0x09, 0x00, 0xbf, 0x04, 0x02, 0xc3, 0xa9, 0x00, 0x01, 0x01]);
}

#[test]
fn handshake_length_prefix_decodes_to_body_length() {
    let packet = build_handshake("play.hypixel.net", 25565);
    match decode_varint(&packet) {
        VarIntDecoded::Value(len, used) => assert_eq!(len as usize + used, packet.len()),
        other => panic!("{:?}", other),
    }
}

#[test]
fn status_request_bytes() {
    assert_eq!(status_request(), vec![0x01, 0x00]);
}

#[test]
fn java_target_splits_or_refuses() {
    assert!(matches!(java_target(""), Err(JavaError::EmptyHost)));
    assert_eq!(java_target("nyan.xyz:25566").unwrap(), ("nyan.xyz", 25566));
    assert_eq!(java_target("nyan.xyz").unwrap(), ("nyan.xyz", 25565));
    assert_eq!(java_target("nyan.xyz:x").unwrap(), ("nyan.xyz", 25565));
}

fn feed_all(reader: &mut StatusReader, bytes: &[u8]) -> Result<ReadRequest, JavaError> {
    let mut last = Ok(ReadRequest::Byte);
    for &b in bytes {
        last = reader.feed(b);
        if last.is_err() {
            return last;
        }
    }
    last
}

#[test]
fn status_reader_reads_header() {
    let mut header = encode(300);
    header.extend(encode(0));
    header.extend(encode(296));
    let mut reader = StatusReader::new();
    let r = feed_all(&mut reader, &header);
    assert_eq!(r.unwrap(), ReadRequest::Payload(296));
    assert_eq!(reader.stage, ResponseStage::Payload);
    assert_eq!(reader.packet_length, 300);
}

#[test]
fn status_reader_refuses_other_packet_id() {
    let mut reader = StatusReader::new();
    let r = feed_all(&mut reader, &[0x05, 0x01]);
    match r {
        Err(e) => assert_eq!(e.message(), "收到无效的包 ID (期望 0, 收到 1)"),
        Ok(_) => panic!("accepted packet id 1"),
    }
}

#[test]
fn status_reader_too_long_varint_is_read_failure() {
    let mut reader = StatusReader::new();
    let r = feed_all(&mut reader, &[0x80, 0x80, 0x80, 0x80, 0x80]);
    match r {
        Err(JavaError::ReadPacketLength(m)) => assert_eq!(m, "failed to read packet length"),
        other => panic!("{:?}", other),
    }
    let mut reader = StatusReader::new();
    let _ = feed_all(&mut reader, &[0x01]);
    match reader.read_failed() {
        JavaError::ReadPacketId(m) => assert_eq!(m, "failed to read packet id"),
        other => panic!("{:?}", other),
    }
}

#[test]
fn java_error_messages() {
    assert_eq!(JavaError::EmptyHost.message(), "服务器地址为空");
    assert_eq!(
        JavaError::TcpConnect("refused".to_string()).message(),
        "TCP 连接失败 (端口可能不通): refused"
    );
    assert_eq!(
        JavaError::InvalidPacketId { expected: 0, received: -7 }.message(),
        "收到无效的包 ID (期望 0, 收到 -7)"
    );
    assert_eq!(JavaError::VarIntTooLarge.message(), "VarInt 超出范围");
    let raw = "x".repeat(250);
    let m = JavaError::JsonParse { raw: raw.clone(), error: "EOF".to_string() }.message();
    assert_eq!(m, format!("JSON 解析失败: EOF\n  原始数据: {}", &raw[..200]));
    let short = JavaError::JsonParse { raw: "{".to_string(), error: "bad".to_string() }.message();
    assert_eq!(short, "JSON 解析失败: bad\n  原始数据: {");
}

fn obj(text: Option<&str>, extra: Vec<ChatComponent>) -> ChatComponent {
    ChatComponent::Object {
        text: text.map(|s| s.to_string()),
        translate: None,
        extra,
        color: None,
        bold: None,
        italic: None,
        underlined: None,
        strikethrough: None,
        obfuscated: None,
    }
}

#[test]
fn parse_description_forms() {
    assert_eq!(parse_description(&ChatComponent::Text("§aHi".to_string())), "§aHi");
    assert_eq!(parse_description(&ChatComponent::Other), "");
    assert_eq!(parse_description(&obj(Some("A"), vec![])), "A");
    let translated = ChatComponent::Object {
        text: None,
        translate: Some("multiplayer.status".to_string()),
        extra: vec![],
        color: None,
        bold: None,
        italic: None,
        underlined: None,
        strikethrough: None,
        obfuscated: None,
    };
    assert_eq!(parse_description(&translated), "multiplayer.status");
}

#[test]
fn parse_description_extra_parts() {
    let red_bold = ChatComponent::Object {
        text: Some("Hypixel".to_string()),
        translate: None,
        extra: vec![],
        color: Some("red".to_string()),
        bold: Some(true),
        italic: Some(false),
        underlined: None,
        strikethrough: None,
        obfuscated: None,
    };
    let nested = obj(Some("x"), vec![ChatComponent::Text("y".to_string())]);
    let root = obj(
        Some(""),
        vec![red_bold, ChatComponent::Text(" Network".to_string()), nested, ChatComponent::Other],
    );
    assert_eq!(parse_description(&root), "§c§lHypixel Networkxy");
}

#[test]
fn extract_color_prefix_order() {
    let c = ChatComponent::Object {
        text: None,
        translate: None,
        extra: vec![],
        color: Some("gold".to_string()),
        bold: Some(true),
        italic: Some(true),
        underlined: Some(true),
        strikethrough: Some(true),
        obfuscated: Some(true),
    };
    assert_eq!(extract_color_prefix(&c), "§6§l§o§n§m§k");
    let unknown = ChatComponent::Object {
        text: None,
        translate: None,
        extra: vec![],
        color: Some("#ff0000".to_string()),
        bold: None,
        italic: None,
        underlined: None,
        strikethrough: None,
        obfuscated: None,
    };
    assert_eq!(extract_color_prefix(&unknown), "");
    assert_eq!(extract_color_prefix(&ChatComponent::Text("a".to_string())), "");
}

#[test]
fn status_to_info_fills_record() {
    let resp = StatusResponse {
        description: ChatComponent::Text("A Minecraft Server".to_string()),
        players_max: 20,
        players_online: 3,
        version_name: "1.20.4".to_string(),
        version_protocol: 765,
    };
    let info = status_to_info("localhost:25565", resp, 42);
    assert_eq!(info.status, "online");
    assert_eq!(info.host, "localhost:25565");
    assert_eq!(info.motd, "A Minecraft Server");
    assert_eq!(info.agreement, 765);
    assert_eq!(info.version, "1.20.4");
    assert_eq!((info.online, info.max, info.delay), (3, 20, 42));
}

#[test]
fn java_offline_record() {
    let info = MotdJavaInfo::offline();
    assert_eq!(info.status, "offline");
    assert_eq!(info.host, "");
    assert_eq!((info.agreement, info.online, info.max, info.delay), (0, 0, 0, 0));
}

#[test]
fn bedrock_offline_record() {
    let info = MotdBEInfo::offline();
    assert_eq!(info.status, "offline");
    assert_eq!(info.level_name, "");
    assert_eq!((info.agreement, info.online, info.max, info.delay), (0, 0, 0, 0));
}

#[test]
fn unconnected_ping_bytes() {
    let p = build_unconnected_ping(0x0102030405060708);
    let mut expected = vec![0x01, 1, 2, 3, 4, 5, 6, 7, 8];
    expected.extend_from_slice(&[
        0x00, 0xFF, 0xFF, 0x00, 0xFE, 0xFE, 0xFE, 0xFE, 0xFD, 0xFD, 0xFD, 0xFD,
    ]);
    expected.extend_from_slice(&[0x12, 0x34, 0x56, 0x78, 0x00]);
    expected.extend_from_slice(&[0; 8]);
    assert_eq!(p, expected);
    assert_eq!(p.len(), 34);
}

#[test]
fn ping_carries_send_time() {
    let now = 1_700_000_000_123u64;
    let p = build_unconnected_ping(now);
    let mut b = [0u8; 8];
    b.copy_from_slice(&p[1..9]);
    assert_eq!(u64::from_be_bytes(b), now);
}

fn pong(info: &[u8]) -> Vec<u8> {
    let mut r = vec![0x1cu8];
    r.extend_from_slice(&[0xab; 32]);
    r.extend_from_slice(info);
    r
}

#[test]
fn pong_is_parsed() {
    let data = pong(
        b"MCPE;CraftersMC;944;1.26.10;270;1000;5800216507803989860;Play Now!;Survival;1;19132;19133;\0\0",
    );
    let info = parse_unconnected_pong(&data, "play.craftersmc.net:19132", 276).unwrap();
    assert_eq!(info.status, "online");
    assert_eq!(info.host, "play.craftersmc.net:19132");
    assert_eq!(info.motd, "CraftersMC");
    assert_eq!(info.agreement, 944);
    assert_eq!(info.version, "1.26.10");
    assert_eq!(info.online, 270);
    assert_eq!(info.max, 1000);
    assert_eq!(info.server_unique_id, "5800216507803989860");
    assert_eq!(info.level_name, "Play Now!");
    assert_eq!(info.game_mode, "Survival");
    assert_eq!(info.delay, 276);
}

#[test]
fn pong_with_invalid_utf8_is_read_lossily() {
    let data = pong(b"MCPE;A\xffB;1;v;2;3;id;L;M;x");
    let info = parse_unconnected_pong(&data, "h", 0).unwrap();
    assert_eq!(info.motd, "A\u{FFFD}B");
    let utf8 = pong("MCPE;§a服务器;1;v;2;3;id;L;M;x".as_bytes());
    assert_eq!(parse_unconnected_pong(&utf8, "h", 0).unwrap().motd, "§a服务器");
}

#[test]
fn pong_too_short() {
    match parse_unconnected_pong(&[0u8; 33], "h", 0) {
        Err(e) => {
            assert!(matches!(e, BedrockError::ResponseTooShort { received: 33 }));
            assert_eq!(e.message(), "服务器返回数据过短 (收到 33 字节, 至少需要 34 字节)");
        }
        Ok(_) => panic!("accepted a short response"),
    }
}

#[test]
fn pong_with_too_few_fields() {
    match parse_unconnected_pong(&pong(b"MCPE;a;1;v;2;3;id;L;M"), "h", 0) {
        Err(e) => {
            assert!(matches!(e, BedrockError::InsufficientFields { found: 9, expected: 10 }));
            assert_eq!(e.message(), "服务器返回字段不足 (收到 9 个字段, 需要至少 10 个)");
        }
        Ok(_) => panic!("accepted nine fields"),
    }
}

#[test]
fn pong_with_bad_number() {
    match parse_unconnected_pong(&pong(b"MCPE;a;1;v;lots;3;id;L;M;x"), "h", 0) {
        Err(e) => assert_eq!(
            e.message(),
            "解析字段 'player_count' 失败: 值='lots', 错误=invalid digit found in string"
        ),
        Ok(_) => panic!("accepted a bad player count"),
    }
    match parse_unconnected_pong(&pong(b"MCPE;a;99999999999;v;x;3;id;L;M;x"), "h", 0) {
        Err(BedrockError::ParseField { field, value, error }) => {
            assert_eq!(field, "protocol_version");
            assert_eq!(value, "99999999999");
            assert_eq!(error, "number too large to fit in target type");
        }
        _ => panic!("protocol version not checked first"),
    }
    match parse_unconnected_pong(&pong(b"MCPE;a;1;v;2;;id;L;M;x"), "h", 0) {
        Err(BedrockError::ParseField { field, error, .. }) => {
            assert_eq!(field, "max_player_count");
            assert_eq!(error, "cannot parse integer from empty string");
        }
        _ => panic!("empty max accepted"),
    }
}

#[test]
fn bedrock_error_messages() {
    assert_eq!(BedrockError::EmptyHost.message(), "服务器地址为空");
    assert_eq!(
        BedrockError::RecvFailed("timed out".to_string()).message(),
        "接收响应超时或失败 (服务器未返回信息): timed out"
    );
    assert_eq!(BedrockError::SocketBind("x".to_string()).message(), "UDP Socket 绑定失败: x");
}

#[test]
fn bedrock_target_refuses_empty_host() {
    assert!(matches!(bedrock_target(""), Err(BedrockError::EmptyHost)));
    assert!(bedrock_target("a").is_ok());
}

#[test]
fn server_description_is_parsed() {
    let info = parse_server_description("MCPE;Motd;1;1.0;5;10;42;World;Creative;1;;\0", "h:1", 7).unwrap();
    assert_eq!(info.motd, "Motd");
    assert_eq!((info.agreement, info.online, info.max, info.delay), (1, 5, 10, 7));
    assert_eq!(info.server_unique_id, "42");
    assert_eq!(info.level_name, "World");
    assert_eq!(info.game_mode, "Creative");
    assert_eq!(info.host, "h:1");
    match parse_server_description("a;b;c\0\0", "h", 0) {
        Err(BedrockError::InsufficientFields { found, expected }) => assert_eq!((found, expected), (3, 10)),
        _ => panic!("three fields accepted"),
    }
}

#[test]
fn default_ports() {
    assert_eq!(motd_cli::protocol::bedrock::DEFAULT_PORT, 19132);
    assert_eq!(motd_cli::protocol::java::DEFAULT_PORT, 25565);
}
