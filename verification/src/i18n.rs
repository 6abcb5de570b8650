//! The command line's messages in Chinese and English, and the choice
//! between them from the user's locale.
use vstd::prelude::*;
use crate::text::{contains_seq, str_contains, str_eq};

verus! {

/// Every message the command line prints, in one language.
#[derive(Clone, Copy)]
pub struct I18n {
    pub help_desc: &'static str,
    pub help_usage: &'static str,
    pub help_usage_1: &'static str,
    pub help_usage_2: &'static str,
    pub help_args: &'static str,
    pub help_arg_be: &'static str,
    pub help_arg_je: &'static str,
    pub help_opts: &'static str,
    pub help_opt_h: &'static str,
    pub help_opt_v: &'static str,
    pub help_opt_j: &'static str,
    pub help_examples: &'static str,

    pub fetching: &'static str,
    pub fetching_ip: &'static str,
    pub connect_fail: &'static str,
    pub dns_fail: &'static str,

    pub offline: &'static str,
    pub delay: &'static str,
    pub online: &'static str,
    pub protocol: &'static str,
    pub version: &'static str,
    pub level_name: &'static str,
    pub game_mode: &'static str,
    pub motd: &'static str,

    pub guess_be: &'static str,
    pub be_offline: &'static str,
    pub be_fail: &'static str,
    pub guess_je: &'static str,
    pub je_offline: &'static str,
    pub je_fail: &'static str,

    pub type_be: &'static str,
    pub type_je: &'static str,
}

/// The messages in Chinese.
pub open spec fn chinese_messages() -> I18n {
    I18n {
        help_desc: "像 PING 一样获取我的世界服务器 MOTD 信息",
        help_usage: "用法:",
        help_usage_1: "  motd-cli <be|je> <地址[:端口]>    指定服务器类型查询",
        help_usage_2: "  motd-cli <地址[:端口]>            自动推断服务器类型",
        help_args: "参数:",
        help_arg_be: "  be                 基岩版服务器 (默认端口: 19132)",
        help_arg_je: "  je                 Java版服务器 (默认端口: 25565)",
        help_opts: "选项:",
        help_opt_h: "  -h, --help         显示此帮助信息",
        help_opt_v: "  -v, --verbose      显示详细调试信息",
        help_opt_j: "  -j, --json         以 JSON 格式输出结果",
        help_examples: "示例:",

        fetching: "正在获取 {} 的 MOTD 信息...",
        fetching_ip: "正在获取 {} [{}:{}] 的 MOTD 信息...",
        connect_fail: "无法连接到服务器，请检查地址是否正确",
        dns_fail: "DNS 解析失败",

        offline: "服务器离线",
        delay: "延迟",
        online: "在线人数",
        protocol: "协议版本",
        version: "游戏版本",
        level_name: "地图名称",
        game_mode: "游戏模式",
        motd: "MOTD",

        guess_be: "推断模式: 先尝试基岩版...",
        be_offline: "基岩版返回离线状态，尝试 Java 版...",
        be_fail: "基岩版查询失败",
        guess_je: "尝试 Java 版...",
        je_offline: "Java 版返回离线状态",
        je_fail: "Java 版查询也失败",

        type_be: "Bedrock Edition",
        type_je: "Java Edition",
    }
}

/// The messages in Chinese.
pub fn zh() -> (r: I18n)
    ensures
        r == chinese_messages(),
{
    I18n {
        help_desc: "像 PING 一样获取我的世界服务器 MOTD 信息",
        help_usage: "用法:",
        help_usage_1: "  motd-cli <be|je> <地址[:端口]>    指定服务器类型查询",
        help_usage_2: "  motd-cli <地址[:端口]>            自动推断服务器类型",
        help_args: "参数:",
        help_arg_be: "  be                 基岩版服务器 (默认端口: 19132)",
        help_arg_je: "  je                 Java版服务器 (默认端口: 25565)",
        help_opts: "选项:",
        help_opt_h: "  -h, --help         显示此帮助信息",
        help_opt_v: "  -v, --verbose      显示详细调试信息",
        help_opt_j: "  -j, --json         以 JSON 格式输出结果",
        help_examples: "示例:",

        fetching: "正在获取 {} 的 MOTD 信息...",
        fetching_ip: "正在获取 {} [{}:{}] 的 MOTD 信息...",
        connect_fail: "无法连接到服务器，请检查地址是否正确",
        dns_fail: "DNS 解析失败",

        offline: "服务器离线",
        delay: "延迟",
        online: "在线人数",
        protocol: "协议版本",
        version: "游戏版本",
        level_name: "地图名称",
        game_mode: "游戏模式",
        motd: "MOTD",

        guess_be: "推断模式: 先尝试基岩版...",
        be_offline: "基岩版返回离线状态，尝试 Java 版...",
        be_fail: "基岩版查询失败",
        guess_je: "尝试 Java 版...",
        je_offline: "Java 版返回离线状态",
        je_fail: "Java 版查询也失败",

        type_be: "Bedrock Edition",
        type_je: "Java Edition",
    }
}

/// The messages in English.
pub open spec fn english_messages() -> I18n {
    I18n {
        help_desc: "Get Minecraft server MOTD info like PING",
        help_usage: "Usage:",
        help_usage_1: "  motd-cli <be|je> <address[:port]>    Query specific server type",
        help_usage_2: "  motd-cli <address[:port]>            Auto-guess server type",
        help_args: "Arguments:",
        help_arg_be: "  be                 Bedrock Edition (default port: 19132)",
        help_arg_je: "  je                 Java Edition (default port: 25565)",
        help_opts: "Options:",
        help_opt_h: "  -h, --help         Show this help message",
        help_opt_v: "  -v, --verbose      Show verbose debug info",
        help_opt_j: "  -j, --json         Output in JSON format",
        help_examples: "Examples:",

        fetching: "Fetching MOTD info for {}...",
        fetching_ip: "Fetching MOTD info for {} [{}:{}]...",
        connect_fail: "Failed to connect to the server, please check the address",
        dns_fail: "DNS resolution failed",

        offline: "Server Offline",
        delay: "Delay",
        online: "Online",
        protocol: "Protocol",
        version: "Version",
        level_name: "Level Name",
        game_mode: "Game Mode",
        motd: "MOTD",

        guess_be: "Guess mode: Trying Bedrock Edition first...",
        be_offline: "Bedrock Edition is offline, trying Java Edition...",
        be_fail: "Bedrock Edition query failed",
        guess_je: "Trying Java Edition...",
        je_offline: "Java Edition is offline",
        je_fail: "Java Edition query failed",

        type_be: "Bedrock Edition",
        type_je: "Java Edition",
    }
}

/// The messages in English.
pub fn en() -> (r: I18n)
    ensures
        r == english_messages(),
{
    I18n {
        help_desc: "Get Minecraft server MOTD info like PING",
        help_usage: "Usage:",
        help_usage_1: "  motd-cli <be|je> <address[:port]>    Query specific server type",
        help_usage_2: "  motd-cli <address[:port]>            Auto-guess server type",
        help_args: "Arguments:",
        help_arg_be: "  be                 Bedrock Edition (default port: 19132)",
        help_arg_je: "  je                 Java Edition (default port: 25565)",
        help_opts: "Options:",
        help_opt_h: "  -h, --help         Show this help message",
        help_opt_v: "  -v, --verbose      Show verbose debug info",
        help_opt_j: "  -j, --json         Output in JSON format",
        help_examples: "Examples:",

        fetching: "Fetching MOTD info for {}...",
        fetching_ip: "Fetching MOTD info for {} [{}:{}]...",
        connect_fail: "Failed to connect to the server, please check the address",
        dns_fail: "DNS resolution failed",

        offline: "Server Offline",
        delay: "Delay",
        online: "Online",
        protocol: "Protocol",
        version: "Version",
        level_name: "Level Name",
        game_mode: "Game Mode",
        motd: "MOTD",

        guess_be: "Guess mode: Trying Bedrock Edition first...",
        be_offline: "Bedrock Edition is offline, trying Java Edition...",
        be_fail: "Bedrock Edition query failed",
        guess_je: "Trying Java Edition...",
        je_offline: "Java Edition is offline",
        je_fail: "Java Edition query failed",

        type_be: "Bedrock Edition",
        type_je: "Java Edition",
    }
}

/// The result of std's `str::to_lowercase` on a string: its characters
/// mapped by the Unicode lowercase mapping.
pub uninterp spec fn unicode_lowercase(s: Seq<char>) -> Seq<char>;

/// std's `str::to_lowercase`. Trusted: the result is `unicode_lowercase` of
/// the argument; nothing more is said of that mapping.
#[verifier::external_body]
fn to_lowercase(s: &str) -> (r: String)
    ensures
        r@ == unicode_lowercase(s@),
{
    s.to_lowercase()
}

/// A Chinese UI is chosen where the lowercased `LANG` or `LC_ALL` names
/// `zh` or `TZ` names a Chinese time zone, and the locale is UTF-8 (or
/// `LANG` is empty). Unset variables count as empty.
pub open spec fn chinese_decision(
    lang_lower: Seq<char>,
    lc_all_lower: Seq<char>,
    tz: Seq<char>,
) -> bool {
    let l = lang_lower;
    let a = lc_all_lower;
    let is_zh = contains_seq(l, "zh"@) || contains_seq(a, "zh"@);
    let is_utf8 = contains_seq(l, "utf-8"@) || contains_seq(l, "utf8"@) || contains_seq(
        a,
        "utf-8"@,
    ) || contains_seq(a, "utf8"@) || l == "c.utf-8"@ || l.len() == 0;
    let is_zh_tz = contains_seq(tz, "Shanghai"@) || contains_seq(tz, "Chongqing"@)
        || contains_seq(tz, "Taipei"@) || contains_seq(tz, "Hong_Kong"@) || contains_seq(
        tz,
        "Macau"@,
    );
    (is_zh || is_zh_tz) && is_utf8
}

/// The decision from `LANG` and `LC_ALL` already lowercased, and `TZ`.
pub fn chinese_from_lowered(lang_lower: &str, lc_all_lower: &str, tz: &str) -> (r: bool)
    ensures
        r == chinese_decision(lang_lower@, lc_all_lower@, tz@),
{
    let l = lang_lower;
    let a = lc_all_lower;
    let is_zh = str_contains(l, "zh") || str_contains(a, "zh");
    let is_utf8 = str_contains(l, "utf-8") || str_contains(l, "utf8") || str_contains(a, "utf-8")
        || str_contains(a, "utf8") || str_eq(l, "c.utf-8") || l.is_empty();
    let is_zh_tz = str_contains(tz, "Shanghai") || str_contains(tz, "Chongqing") || str_contains(
        tz,
        "Taipei",
    ) || str_contains(tz, "Hong_Kong") || str_contains(tz, "Macau");
    (is_zh || is_zh_tz) && is_utf8
}

/// Decides from `LANG`, `LC_ALL` and `TZ` whether the terminal gets Chinese
/// messages; `LANG` and `LC_ALL` are compared in lowercase.
pub fn chinese_supported(lang: &str, lc_all: &str, tz: &str) -> (r: bool)
    ensures
        r == chinese_decision(unicode_lowercase(lang@), unicode_lowercase(lc_all@), tz@),
{
    let l = to_lowercase(lang);
    let a = to_lowercase(lc_all);
    chinese_from_lowered(l.as_str(), a.as_str(), tz)
}

/// On Windows, a Chinese UI is chosen where the user's UI language is a
/// Chinese one (primary language id 0x04) and the console code page is
/// UTF-8, GBK, GB18030 or Big5.
pub open spec fn windows_chinese_supported_spec(lang: u16, code_page: u32) -> bool {
    (lang & 0x3FF) == 0x04 && (code_page == 65001 || code_page == 936 || code_page == 54936
        || code_page == 950)
}

/// Decides from the Windows UI language and console code page whether the
/// terminal gets Chinese messages.
pub fn windows_chinese_supported(lang: u16, code_page: u32) -> (r: bool)
    ensures
        r == windows_chinese_supported_spec(lang, code_page),
{
    let is_zh = (lang & 0x03FF) == 0x04;
    let is_supported_cp = code_page == 65001 || code_page == 936 || code_page == 54936
        || code_page == 950;
    is_zh && is_supported_cp
}

/// The messages in the language chosen: Chinese where `chinese` holds,
/// English otherwise.
pub fn get_i18n(chinese: bool) -> (r: I18n)
    ensures
        r == (if chinese {
            chinese_messages()
        } else {
            english_messages()
        }),
{
    if chinese {
        zh()
    } else {
        en()
    }
}

} // verus!
