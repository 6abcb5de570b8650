use motd_cli::cli::{
    bedrock_for_json, choose_mode, fetching_line, format_mc_text, guess_step, help_text,
    java_for_json, offline_json, outcome_of_status, parse_args, render_bedrock, render_java,
    GuessAction, GuessStage, Mode, QueryOutcome,
};
use motd_cli::i18n::{en, zh};
use motd_cli::protocol::bedrock::MotdBEInfo;
use motd_cli::protocol::java::MotdJavaInfo;

fn args(list: &[&str]) -> Vec<String> {
    list.iter().map(|s| s.to_string()).collect()
}

#[test]
fn parse_args_with_edition_and_flags() {
    let a = parse_args(&args(&["-v", "be", "play.craftersmc.net", "-j"]));
    assert!(a.verbose);
    assert!(a.json);
    assert!(!a.show_help);
    assert_eq!(a.version.as_deref(), Some("be"));
    assert_eq!(a.address.as_deref(), Some("play.craftersmc.net"));
}

#[test]
fn parse_args_guess_and_help() {
    let a = parse_args(&args(&["play.hypixel.net"]));
    assert_eq!(a.version, None);
    assert_eq!(a.address.as_deref(), Some("play.hypixel.net"));
    let h = parse_args(&args(&["--help"]));
    assert!(h.show_help);
    assert_eq!(h.address, None);
    let e = parse_args(&args(&["je"]));
    assert_eq!(e.version.as_deref(), Some("je"));
    assert_eq!(e.address, None);
    let none = parse_args(&args(&[]));
    assert!(!none.show_help && !none.verbose && !none.json);
    assert_eq!(none.address, None);
    let extra = parse_args(&args(&["host", "be", "--verbose", "--json"]));
    assert_eq!(extra.address.as_deref(), Some("host"));
    assert_eq!(extra.version, None);
    assert!(extra.verbose && extra.json);
}

#[test]
fn choose_mode_cases() {
    assert!(matches!(choose_mode(parse_args(&args(&["-h", "be", "x"]))), Mode::Help));
    assert!(matches!(choose_mode(parse_args(&args(&["be"]))), Mode::Help));
    assert!(matches!(choose_mode(parse_args(&args(&[]))), Mode::Help));
    match choose_mode(parse_args(&args(&["be", "a:1"]))) {
        Mode::Bedrock(a) => assert_eq!(a, "a:1"),
        _ => panic!(),
    }
    match choose_mode(parse_args(&args(&["je", "b"]))) {
        Mode::Java(a) => assert_eq!(a, "b"),
        _ => panic!(),
    }
    match choose_mode(parse_args(&args(&["c"]))) {
        Mode::Guess(a) => assert_eq!(a, "c"),
        _ => panic!(),
    }
}

#[test]
fn guess_tries_bedrock_then_java() {
    assert_eq!(guess_step(GuessStage::Bedrock, QueryOutcome::Online), GuessAction::ShowBedrock);
    assert_eq!(guess_step(GuessStage::Bedrock, QueryOutcome::Offline), GuessAction::TryJava);
    assert_eq!(guess_step(GuessStage::Bedrock, QueryOutcome::Failed), GuessAction::TryJava);
    assert_eq!(guess_step(GuessStage::Java, QueryOutcome::Online), GuessAction::ShowJava);
    assert_eq!(guess_step(GuessStage::Java, QueryOutcome::Offline), GuessAction::GiveUp);
    assert_eq!(guess_step(GuessStage::Java, QueryOutcome::Failed), GuessAction::GiveUp);
    assert_eq!(outcome_of_status("offline"), QueryOutcome::Offline);
    assert_eq!(outcome_of_status("online"), QueryOutcome::Online);
}

#[test]
fn fetching_lines() {
    let i = en();
    assert_eq!(
        fetching_line(&i, "1.2.3.4:19132", "1.2.3.4", "1.2.3.4", 19132),
        "Fetching MOTD info for 1.2.3.4:19132..."
    );
    assert_eq!(
        fetching_line(&zh(), "play.hypixel.net:25565", "play.hypixel.net", "172.65.197.160", 25565),
        "正在获取 play.hypixel.net:25565 [172.65.197.160:25565] 的 MOTD 信息..."
    );
}

#[test]
fn offline_json_text() {
    assert_eq!(offline_json("Both BE and JE offline"), r#"{"status": "offline", "error": "Both BE and JE offline"}"#);
}

#[test]
fn format_mc_text_by_color_support() {
    assert_eq!(format_mc_text("§aHi", true), "\x1b[92mHi\x1b[0m");
    assert_eq!(format_mc_text("§aHi", false), "Hi");
}

/// Deletes every `ESC [` digits `m` sequence, left to right.
fn without_escapes(t: &str) -> String {
    let c: Vec<char> = t.chars().collect();
    let mut out = String::new();
    let mut i = 0;
    while i < c.len() {
        if c[i] == '\x1b' && i + 1 < c.len() && c[i + 1] == '[' {
            let mut j = i + 2;
            while j < c.len() && c[j].is_ascii_digit() {
                j += 1;
            }
            if j < c.len() && c[j] == 'm' {
                i = j + 1;
                continue;
            }
        }
        out.push(c[i]);
        i += 1;
    }
    out
}

#[test]
fn colour_on_and_off_show_same_text() {
    for text in ["§aHi §lthere§r!", "plain", "", "§k§0a§1b§2c§3d§4e§5f§6g§7h§8i§9j§Ak§Bl§Cm§Dn§Eo§Fp§Lq§Mr§Ns§Ot§Ru"] {
        let coloured = format_mc_text(text, true);
        assert_eq!(without_escapes(&coloured), format_mc_text(text, false));
    }
    assert_eq!(without_escapes(&format_mc_text("§aHi §lthere", true)), "Hi there");
}

#[test]
fn help_text_lines() {
    let h = help_text(&en());
    assert!(h.starts_with("motd-cli - Get Minecraft server MOTD info like PING\n\nUsage:\n"));
    assert!(h.ends_with("  motd-cli -v be play.craftersmc.net\n"));
    assert_eq!(h.lines().count(), 20);
}

fn be_info() -> MotdBEInfo {
    let mut info = MotdBEInfo::offline();
    info.status = "online".to_string();
    info.host = "h:19132".to_string();
    info.motd = "§aHi".to_string();
    info.agreement = 944;
    info.version = "1.26.10".to_string();
    info.online = 270;
    info.max = 1000;
    info.level_name = "§lWorld".to_string();
    info.game_mode = "Survival".to_string();
    info.delay = 276;
    info
}

#[test]
fn render_bedrock_lines() {
    let text = render_bedrock(&en(), &be_info(), false, false);
    assert_eq!(
        text,
        "  Delay:      276ms\n  Online:  270/1000\n  Protocol:  944\n  Version:  1.26.10\n  Level Name:  World\n  Game Mode:  Survival\n  MOTD:      Hi\n"
    );
    let guessed = render_bedrock(&en(), &be_info(), true, true);
    assert!(guessed.starts_with("\n  类型:      Bedrock Edition\n  Delay:      276ms\n"));
    assert!(guessed.ends_with("  MOTD:      \x1b[92mHi\x1b[0m\n"));
    let off = render_bedrock(&zh(), &MotdBEInfo::offline(), true, false);
    assert_eq!(off, "服务器离线\n");
}

#[test]
fn render_java_lines() {
    let mut info = MotdJavaInfo::offline();
    info.status = "online".to_string();
    info.motd = "Hypixel".to_string();
    info.agreement = 575;
    info.version = "Requires MC 1.8 / 1.21".to_string();
    info.online = 14838;
    info.max = 200000;
    info.delay = 196;
    assert_eq!(
        render_java(&zh(), &info, false, false),
        "  延迟:      196ms\n  在线人数:  14838/200000\n  协议版本:  575\n  游戏版本:  Requires MC 1.8 / 1.21\n  MOTD:      Hypixel\n"
    );
    assert!(render_java(&en(), &info, false, true).starts_with("\n  类型:      Java Edition\n"));
}

#[test]
fn json_records_lose_codes_without_color() {
    let j = bedrock_for_json(be_info(), false);
    assert_eq!(j.motd, "Hi");
    assert_eq!(j.level_name, "World");
    let k = bedrock_for_json(be_info(), true);
    assert_eq!(k.motd, "§aHi");
    let mut info = MotdJavaInfo::offline();
    info.motd = "§cRed".to_string();
    assert_eq!(java_for_json(info, false).motd, "Red");
}
