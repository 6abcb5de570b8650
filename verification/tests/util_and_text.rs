use motd_cli::i18n::{chinese_from_lowered, chinese_supported, en, get_i18n, windows_chinese_supported, zh};
use motd_cli::text::{
    i64_to_decimal, int_error_message, parse_i32, parse_u16, replacen, split_on, str_contains, trim_end,
    u64_to_decimal, IntErrorKind,
};
use motd_cli::util::{
    complete_port, mc_color_to_ansi, split_address, split_host_port, strip_mc_color,
    supports_ansi_color,
};

#[test]
fn complete_port_adds_default_port() {
    assert_eq!(complete_port("play.hypixel.net", 25565), "play.hypixel.net:25565");
    assert_eq!(complete_port("play.craftersmc.net", 19132), "play.craftersmc.net:19132");
    assert_eq!(complete_port("", 0), ":0");
}

#[test]
fn complete_port_keeps_existing_port() {
    assert_eq!(complete_port("play.craftersmc.net:19132", 25565), "play.craftersmc.net:19132");
    assert_eq!(complete_port("host:", 25565), "host:");
}

#[test]
fn complete_port_is_idempotent() {
    let once = complete_port("example.org", 19132);
    assert_eq!(complete_port(&once, 25565), once);
}

#[test]
fn split_address_splits_at_last_colon() {
    assert_eq!(split_address("play.hypixel.net:25565"), ("play.hypixel.net", 25565));
    assert_eq!(split_address("[::1]:19132"), ("[::1]", 19132));
    assert_eq!(split_address("a:b:80"), ("a:b", 80));
}

#[test]
fn split_address_without_colon_has_port_zero() {
    assert_eq!(split_address("localhost"), ("localhost", 0));
}

#[test]
fn split_address_invalid_port_reads_as_zero() {
    assert_eq!(split_address("host:abc"), ("host", 0));
    assert_eq!(split_address("host:70000"), ("host", 0));
    assert_eq!(split_address("host:"), ("host", 0));
    assert_eq!(split_address("host:-1"), ("host", 0));
    assert_eq!(split_address("host:+80"), ("host", 80));
    assert_eq!(split_address("host:65535"), ("host", 65535));
}

#[test]
fn split_of_completed_address_gives_address_and_port() {
    for (addr, port) in [("mc.example.com", 19132u16), ("10.0.0.1", 25565), ("x", 0), ("y", 65535)] {
        let full = complete_port(addr, port);
        assert_eq!(split_address(&full), (addr, port));
    }
}

#[test]
fn split_host_port_uses_fallback() {
    assert_eq!(split_host_port("nyan.xyz", 25565), ("nyan.xyz", 25565));
    assert_eq!(split_host_port("nyan.xyz:oops", 25565), ("nyan.xyz", 25565));
    assert_eq!(split_host_port("nyan.xyz:1234", 25565), ("nyan.xyz", 1234));
}

#[test]
fn mc_color_to_ansi_converts_codes_and_resets() {
    assert_eq!(mc_color_to_ansi("§aHello"), "\x1b[92mHello\x1b[0m");
    assert_eq!(mc_color_to_ansi("§lBold§r"), "\x1b[1mBold\x1b[0m\x1b[0m");
    assert_eq!(mc_color_to_ansi("§0§1§2§3"), "\x1b[30m\x1b[34m\x1b[32m\x1b[36m\x1b[0m");
    assert_eq!(mc_color_to_ansi("§4§5§6§7"), "\x1b[31m\x1b[35m\x1b[33m\x1b[37m\x1b[0m");
    assert_eq!(mc_color_to_ansi("§8§9§B§c"), "\x1b[90m\x1b[94m\x1b[96m\x1b[91m\x1b[0m");
    assert_eq!(mc_color_to_ansi("§d§E§f"), "\x1b[95m\x1b[93m\x1b[97m\x1b[0m");
    assert_eq!(mc_color_to_ansi("§m§N§o"), "\x1b[9m\x1b[4m\x1b[3m\x1b[0m");
}

#[test]
fn mc_color_to_ansi_keeps_unknown_codes() {
    assert_eq!(mc_color_to_ansi("§zX"), "§zX");
    assert_eq!(mc_color_to_ansi("abc§"), "abc§");
    assert_eq!(mc_color_to_ansi("§§a"), "§§a");
}

#[test]
fn mc_color_to_ansi_obfuscated_is_dropped() {
    assert_eq!(mc_color_to_ansi("§kSecret"), "Secret");
}

#[test]
fn mc_color_to_ansi_leaves_plain_text() {
    assert_eq!(mc_color_to_ansi("Hypixel Network [1.8/1.21]"), "Hypixel Network [1.8/1.21]");
    assert_eq!(mc_color_to_ansi(""), "");
}

#[test]
fn mc_color_to_ansi_resets_existing_escape() {
    assert_eq!(mc_color_to_ansi("\x1b[1mX"), "\x1b[1mX\x1b[0m");
}

#[test]
fn strip_mc_color_removes_codes() {
    assert_eq!(strip_mc_color("§aHi §lthere"), "Hi there");
    assert_eq!(strip_mc_color("a§"), "a");
    assert_eq!(strip_mc_color("§§a"), "a");
    assert_eq!(strip_mc_color("plain"), "plain");
}

#[test]
fn strip_mc_color_is_idempotent_and_leaves_no_section() {
    for s in ["§a§§b§", "x§y§§§z", "§", "§§§§§"] {
        let once = strip_mc_color(s);
        assert!(!once.contains('§'));
        assert_eq!(strip_mc_color(&once), once);
    }
}

#[test]
fn supports_ansi_color_decision() {
    assert!(!supports_ansi_color(true, None));
    assert!(!supports_ansi_color(true, Some("xterm")));
    assert!(!supports_ansi_color(false, Some("dumb")));
    assert!(supports_ansi_color(false, Some("xterm-256color")));
    assert!(supports_ansi_color(false, Some("Dumb")));
    assert!(supports_ansi_color(false, None));
}

#[test]
fn chinese_supported_from_locale() {
    assert!(chinese_supported("zh_CN.UTF-8", "", ""));
    assert!(chinese_supported("ZH_TW.UTF8", "", ""));
    assert!(chinese_supported("en_US.UTF-8", "zh_CN.utf8", ""));
    assert!(chinese_supported("en_US.UTF-8", "", "Asia/Shanghai"));
    assert!(chinese_supported("", "", "Asia/Hong_Kong"));
    assert!(!chinese_supported("en_US.UTF-8", "", ""));
    assert!(!chinese_supported("zh_CN.GBK", "", ""));
    assert!(!chinese_supported("", "", ""));
    assert!(!chinese_supported("C", "", "Asia/Shanghai"));
    assert!(chinese_supported("C.UTF-8", "", "Asia/Taipei"));
}

#[test]
fn chinese_from_lowered_locale() {
    assert!(chinese_from_lowered("zh_cn.utf-8", "", ""));
    assert!(!chinese_from_lowered("ZH_CN.UTF-8", "", ""));
    assert!(chinese_from_lowered("c.utf-8", "", "Asia/Macau"));
    assert!(chinese_from_lowered("", "", "Asia/Chongqing"));
    assert!(!chinese_from_lowered("", "", "asia/shanghai"));
}

#[test]
fn windows_chinese_supported_from_language_and_code_page() {
    assert!(windows_chinese_supported(0x0804, 65001));
    assert!(windows_chinese_supported(0x0404, 950));
    assert!(windows_chinese_supported(0x0804, 936));
    assert!(windows_chinese_supported(0x0804, 54936));
    assert!(!windows_chinese_supported(0x0409, 65001));
    assert!(!windows_chinese_supported(0x0804, 437));
}

#[test]
fn get_i18n_selects_language() {
    assert_eq!(get_i18n(true).help_desc, "像 PING 一样获取我的世界服务器 MOTD 信息");
    assert_eq!(get_i18n(false).help_desc, "Get Minecraft server MOTD info like PING");
    assert_eq!(zh().offline, "服务器离线");
    assert_eq!(en().fetching_ip, "Fetching MOTD info for {} [{}:{}]...");
    assert_eq!(en().type_be, "Bedrock Edition");
    assert_eq!(zh().type_je, "Java Edition");
}

#[test]
fn decimal_rendering() {
    assert_eq!(u64_to_decimal(0), "0");
    assert_eq!(u64_to_decimal(19132), "19132");
    assert_eq!(u64_to_decimal(u64::MAX), u64::MAX.to_string());
    assert_eq!(i64_to_decimal(-196), "-196");
    assert_eq!(i64_to_decimal(i64::MIN), i64::MIN.to_string());
    assert_eq!(i64_to_decimal(i64::MAX), i64::MAX.to_string());
}

#[test]
fn parse_u16_matches_std() {
    for s in ["0", "65535", "65536", "+1", "-1", "+", "", "00012", "1a", " 1", "99999999999", "٣"] {
        assert_eq!(parse_u16(s), s.parse::<u16>().ok(), "input {:?}", s);
    }
}

#[test]
fn parse_i32_matches_std() {
    let cases = [
        "0", "944", "-1", "+7", "2147483647", "2147483648", "-2147483648", "-2147483649",
        "", "+", "-", "12x", "x12", "99999999999x", "-99999999999x", " 1", "1 ", "--1",
        "0000000000000000042",
    ];
    for s in cases {
        let ours = parse_i32(s);
        match s.parse::<i32>() {
            Ok(v) => assert_eq!(ours, Ok(v), "input {:?}", s),
            Err(e) => {
                let kind = match e.kind() {
                    std::num::IntErrorKind::Empty => IntErrorKind::Empty,
                    std::num::IntErrorKind::InvalidDigit => IntErrorKind::InvalidDigit,
                    std::num::IntErrorKind::PosOverflow => IntErrorKind::PosOverflow,
                    std::num::IntErrorKind::NegOverflow => IntErrorKind::NegOverflow,
                    _ => panic!("unexpected kind"),
                };
                assert_eq!(ours, Err(kind), "input {:?}", s);
            }
        }
    }
}

#[test]
fn int_error_messages_match_std() {
    for s in ["", "x", "2147483648", "-2147483649"] {
        let e = s.parse::<i32>().unwrap_err();
        let kind = parse_i32(s).unwrap_err();
        assert_eq!(int_error_message(kind), e.to_string());
    }
}

#[test]
fn replacen_and_contains() {
    assert_eq!(replacen("a {} b {} c", "{}", "X", 1), "a X b {} c");
    assert_eq!(replacen("a {} b {} c", "{}", "X", 5), "a X b X c");
    assert_eq!(replacen("a {} b {} c", "{}", "X", 0), "a {} b {} c");
    assert_eq!(replacen("{}{}", "{}", "{}", 1), "{}{}");
    assert!(str_contains("Asia/Shanghai", "Shanghai"));
    assert!(str_contains("abc", ""));
    assert!(!str_contains("ab", "abc"));
}

#[test]
fn split_and_trim() {
    assert_eq!(split_on("a;b;;c;", ';'), vec!["a", "b", "", "c", ""]);
    assert_eq!(split_on("", ';'), vec![""]);
    assert_eq!(trim_end("abc\0\0", '\0'), "abc");
    assert_eq!(trim_end("\0", '\0'), "");
    assert_eq!(trim_end("a\0b", '\0'), "a\0b");
}
