//! The command line: its arguments, the mode they select, the order in
//! which guessing tries the two editions, and the text it prints.
use vstd::prelude::*;
use crate::i18n::I18n;
use crate::protocol::bedrock::MotdBEInfo;
use crate::protocol::java::MotdJavaInfo;
use crate::text::{
    i64_to_decimal, push_char, replace_all, replace_first_n, replacen, signed_decimal, str_eq,
    u64_to_decimal, decimal,
};
use crate::util::{
    codes_known, delete_sgr, lemma_ansi_leaves_no_section, lemma_color_and_plain_show_same_text,
    lemma_delete_sgr_keeps_plain, mc_color_to_ansi, mc_color_to_ansi_spec, section, strip_mc_color,
    strip_spec,
};

verus! {

// ---------------------------------------------------------------------------
// Arguments
// ---------------------------------------------------------------------------
/// An option of the command line.
#[derive(Clone, Copy, Debug, PartialEq, Eq, Structural)]
pub enum Flag {
    Help,
    Verbose,
    Json,
}

/// The option an argument names, if any: `-h`/`--help`,
/// `-v`/`--verbose`, `-j`/`--json`.
pub open spec fn flag_of(a: Seq<char>) -> Option<Flag> {
    if a == "-h"@ || a == "--help"@ {
        Some(Flag::Help)
    } else if a == "-v"@ || a == "--verbose"@ {
        Some(Flag::Verbose)
    } else if a == "-j"@ || a == "--json"@ {
        Some(Flag::Json)
    } else {
        None
    }
}

fn flag_exec(a: &str) -> (r: Option<Flag>)
    ensures
        r == flag_of(a@),
{
    if str_eq(a, "-h") || str_eq(a, "--help") {
        Some(Flag::Help)
    } else if str_eq(a, "-v") || str_eq(a, "--verbose") {
        Some(Flag::Verbose)
    } else if str_eq(a, "-j") || str_eq(a, "--json") {
        Some(Flag::Json)
    } else {
        None
    }
}

/// Some argument names the option.
pub open spec fn has_flag(args: Seq<Seq<char>>, f: Flag) -> bool {
    exists|i: int| 0 <= i < args.len() && flag_of(#[trigger] args[i]) == Some(f)
}

/// The arguments that name no option, in order.
pub open spec fn positional(args: Seq<Seq<char>>) -> Seq<Seq<char>>
    decreases args.len(),
{
    if args.len() == 0 {
        Seq::<Seq<char>>::empty()
    } else if flag_of(args.last()) is None {
        positional(args.drop_last()).push(args.last())
    } else {
        positional(args.drop_last())
    }
}

/// What the command line asks for.
pub struct Args {
    pub verbose: bool,
    pub json: bool,
    /// `be` or `je` where the first positional argument is one of them.
    pub version: Option<String>,
    pub address: Option<String>,
    pub show_help: bool,
}

/// The edition named by the first positional argument, if it names one.
pub open spec fn edition_arg(pos: Seq<Seq<char>>) -> Option<Seq<char>> {
    if pos.len() > 0 && (pos[0] == "be"@ || pos[0] == "je"@) {
        Some(pos[0])
    } else {
        None
    }
}

/// The address: the positional argument after the edition where one is
/// named, the first positional argument otherwise.
pub open spec fn address_arg(pos: Seq<Seq<char>>) -> Option<Seq<char>> {
    if edition_arg(pos) is Some {
        if pos.len() > 1 {
            Some(pos[1])
        } else {
            None
        }
    } else if pos.len() > 0 {
        Some(pos[0])
    } else {
        None
    }
}

/// An optional string seen as characters.
pub open spec fn opt_view(o: Option<String>) -> Option<Seq<char>> {
    match o {
        Some(s) => Some(s@),
        None => None,
    }
}

/// Reads the command line's arguments (without the program's name).
pub fn parse_args(raw: &Vec<String>) -> (r: Args)
    ensures
        r.show_help == has_flag(raw.deep_view(), Flag::Help),
        r.verbose == has_flag(raw.deep_view(), Flag::Verbose),
        r.json == has_flag(raw.deep_view(), Flag::Json),
        opt_view(r.version) == edition_arg(positional(raw.deep_view())),
        opt_view(r.address) == address_arg(positional(raw.deep_view())),
{
    let ghost all = raw.deep_view();
    let mut args = Args { verbose: false, json: false, version: None, address: None, show_help: false };
    let mut pos: Vec<String> = Vec::new();
    let mut i: usize = 0;
    assert(all.take(0) =~= Seq::<Seq<char>>::empty());
    while i < raw.len()
        invariant
            all == raw.deep_view(),
            i <= raw.len(),
            args.show_help == has_flag(all.take(i as int), Flag::Help),
            args.verbose == has_flag(all.take(i as int), Flag::Verbose),
            args.json == has_flag(all.take(i as int), Flag::Json),
            args.version is None && args.address is None,
            pos.deep_view() == positional(all.take(i as int)),
        decreases raw.len() - i,
    {
        let ghost before = all.take(i as int);
        let ghost after = all.take(i + 1);
        assert(after.drop_last() =~= before);
        assert(after.last() == raw@[i as int]@);
        let f = flag_exec(raw[i].as_str());
        proof {
            assert forall|g: Flag| #[trigger] has_flag(after, g) == (has_flag(before, g) || flag_of(
                after.last(),
            ) == Some(g)) by {
                if has_flag(after, g) {
                    let k = choose|k: int| 0 <= k < after.len() && flag_of(#[trigger] after[k]) == Some(g);
                    if k < i {
                        assert(before[k] == after[k]);
                    }
                }
                if has_flag(before, g) {
                    let k = choose|k: int| 0 <= k < before.len() && flag_of(#[trigger] before[k]) == Some(g);
                    assert(after[k] == before[k]);
                }
                if flag_of(after.last()) == Some(g) {
                    assert(flag_of(after[i as int]) == Some(g));
                }
            }
        }
        match f {
            Some(Flag::Help) => {
                args.show_help = true;
            },
            Some(Flag::Verbose) => {
                args.verbose = true;
            },
            Some(Flag::Json) => {
                args.json = true;
            },
            None => {
                pos.push(raw[i].clone());
            },
        }
        i = i + 1;
        assert(pos.deep_view() =~= positional(all.take(i as int)));
    }
    assert(all.take(raw.len() as int) =~= all);
    if pos.len() == 0 {
        return args;
    }
    assert(pos.deep_view()[0] == pos@[0]@);
    if str_eq(pos[0].as_str(), "be") || str_eq(pos[0].as_str(), "je") {
        args.version = Some(pos[0].clone());
        if pos.len() > 1 {
            assert(pos.deep_view()[1] == pos@[1]@);
            args.address = Some(pos[1].clone());
        }
    } else {
        args.address = Some(pos[0].clone());
    }
    args
}

/// The positional arguments are exactly the arguments that name no option,
/// in their order; each is one of the arguments given.
pub proof fn lemma_positional_keeps_non_options(args: Seq<Seq<char>>)
    ensures
        positional(args) == args.filter(|a: Seq<char>| flag_of(a) is None),
        forall|j: int|
            0 <= j < positional(args).len() ==> flag_of(#[trigger] positional(args)[j]) is None
                && args.contains(positional(args)[j]),
    decreases args.len(),
{
    reveal(Seq::filter);
    if args.len() > 0 {
        lemma_positional_keeps_non_options(args.drop_last());
        let before = positional(args.drop_last());
        assert forall|j: int| 0 <= j < positional(args).len() implies flag_of(
            #[trigger] positional(args)[j],
        ) is None && args.contains(positional(args)[j]) by {
            if j < before.len() {
                assert(positional(args)[j] == before[j]);
                let k = choose|k: int|
                    0 <= k < args.drop_last().len() && args.drop_last()[k] == before[j];
                assert(args[k] == args.drop_last()[k]);
            } else {
                assert(positional(args)[j] == args.last());
                assert(args[args.len() - 1] == args.last());
            }
        }
    }
}

/// The edition and the address are arguments given on the command line,
/// and never an option such as `-j`.
pub proof fn lemma_address_is_no_option(args: Seq<Seq<char>>)
    ensures
        address_arg(positional(args)) matches Some(a) ==> flag_of(a) is None && args.contains(a),
        edition_arg(positional(args)) matches Some(e) ==> flag_of(e) is None && args.contains(e),
{
    lemma_positional_keeps_non_options(args);
    let pos = positional(args);
    if pos.len() > 0 {
        assert(flag_of(pos[0]) is None);
    }
    if pos.len() > 1 {
        assert(flag_of(pos[1]) is None);
    }
}

/// What the program does.
pub enum Mode {
    /// Show the help text.
    Help,
    /// Query a Bedrock Edition server at the address.
    Bedrock(String),
    /// Query a Java Edition server at the address.
    Java(String),
    /// Try Bedrock Edition, then Java Edition, at the address.
    Guess(String),
}

/// Help where it is asked for or no address is given; otherwise the
/// edition named, or a guess where none is.
pub fn choose_mode(args: Args) -> (m: Mode)
    ensures
        (args.show_help || args.address is None) ==> m is Help,
        !args.show_help && args.address is Some ==> match m {
            Mode::Bedrock(a) => opt_view(args.version) == Some("be"@) && Some(a@) == opt_view(
                args.address,
            ),
            Mode::Java(a) => opt_view(args.version) == Some("je"@) && Some(a@) == opt_view(
                args.address,
            ),
            Mode::Guess(a) => opt_view(args.version) != Some("be"@) && opt_view(args.version)
                != Some("je"@) && Some(a@) == opt_view(args.address),
            Mode::Help => false,
        },
{
    if args.show_help {
        return Mode::Help;
    }
    match args.address {
        None => Mode::Help,
        Some(address) => match args.version {
            Some(v) => {
                if str_eq(v.as_str(), "be") {
                    Mode::Bedrock(address)
                } else if str_eq(v.as_str(), "je") {
                    Mode::Java(address)
                } else {
                    Mode::Guess(address)
                }
            },
            None => Mode::Guess(address),
        },
    }
}

// ---------------------------------------------------------------------------
// Guessing the edition
// ---------------------------------------------------------------------------
/// How a query ended.
#[derive(Clone, Copy, Debug, PartialEq, Eq, Structural)]
pub enum QueryOutcome {
    /// The server answered and is online.
    Online,
    /// The server answered that it is offline.
    Offline,
    /// The query failed.
    Failed,
}

/// Which query a guess has made last.
#[derive(Clone, Copy, Debug, PartialEq, Eq, Structural)]
pub enum GuessStage {
    Bedrock,
    Java,
}

/// What a guess does next.
#[derive(Clone, Copy, Debug, PartialEq, Eq, Structural)]
pub enum GuessAction {
    /// Show the Bedrock Edition answer and stop.
    ShowBedrock,
    /// Query the Java Edition port.
    TryJava,
    /// Show the Java Edition answer and stop.
    ShowJava,
    /// Report that neither edition answered.
    GiveUp,
}

/// The next step of a guess after a query: an online Bedrock server is
/// shown at once; otherwise Java Edition is tried; an online Java server is
/// shown; otherwise the guess gives up.
pub fn guess_step(stage: GuessStage, outcome: QueryOutcome) -> (a: GuessAction)
    ensures
        stage == GuessStage::Bedrock ==> a == (if outcome == QueryOutcome::Online {
            GuessAction::ShowBedrock
        } else {
            GuessAction::TryJava
        }),
        stage == GuessStage::Java ==> a == (if outcome == QueryOutcome::Online {
            GuessAction::ShowJava
        } else {
            GuessAction::GiveUp
        }),
{
    match (stage, outcome) {
        (GuessStage::Bedrock, QueryOutcome::Online) => GuessAction::ShowBedrock,
        (GuessStage::Bedrock, _) => GuessAction::TryJava,
        (GuessStage::Java, QueryOutcome::Online) => GuessAction::ShowJava,
        (GuessStage::Java, _) => GuessAction::GiveUp,
    }
}

/// A status other than `offline` counts as online.
pub fn outcome_of_status(status: &str) -> (o: QueryOutcome)
    ensures
        o == (if status@ == "offline"@ {
            QueryOutcome::Offline
        } else {
            QueryOutcome::Online
        }),
{
    if str_eq(status, "offline") {
        QueryOutcome::Offline
    } else {
        QueryOutcome::Online
    }
}

// ---------------------------------------------------------------------------
// Output
// ---------------------------------------------------------------------------
/// Lines, each followed by a newline.
pub open spec fn with_newlines(lines: Seq<Seq<char>>) -> Seq<char>
    decreases lines.len(),
{
    if lines.len() == 0 {
        Seq::<char>::empty()
    } else {
        with_newlines(lines.drop_last()) + lines.last() + seq!['\n']
    }
}

fn push_line(out: &mut String, line: &str)
    ensures
        final(out)@ == old(out)@ + line@ + seq!['\n'],
{
    out.append(line);
    push_char(out, '\n');
}

proof fn lemma_with_newlines_push(lines: Seq<Seq<char>>, line: Seq<char>)
    ensures
        with_newlines(lines.push(line)) == with_newlines(lines) + line + seq!['\n'],
{
    assert(lines.push(line).drop_last() =~= lines);
}

/// The help text's lines.
pub open spec fn help_lines(i: I18n) -> Seq<Seq<char>> {
    seq![
        "motd-cli - "@ + i.help_desc@,
        ""@,
        i.help_usage@,
        i.help_usage_1@,
        i.help_usage_2@,
        ""@,
        i.help_args@,
        i.help_arg_be@,
        i.help_arg_je@,
        ""@,
        i.help_opts@,
        i.help_opt_h@,
        i.help_opt_v@,
        i.help_opt_j@,
        ""@,
        i.help_examples@,
        "  motd-cli be play.craftersmc.net:19132"@,
        "  motd-cli je play.hypixel.net"@,
        "  motd-cli play.craftersmc.net"@,
        "  motd-cli -v be play.craftersmc.net"@,
    ]
}

/// The help text.
pub fn help_text(i: &I18n) -> (r: String)
    ensures
        r@ == with_newlines(help_lines(*i)),
{
    let mut out = String::new();
    let ghost mut lines = Seq::<Seq<char>>::empty();
    let mut first = String::from_str("motd-cli - ");
    first.append(i.help_desc);
    let items: [&str; 19] = [
        "",
        i.help_usage,
        i.help_usage_1,
        i.help_usage_2,
        "",
        i.help_args,
        i.help_arg_be,
        i.help_arg_je,
        "",
        i.help_opts,
        i.help_opt_h,
        i.help_opt_v,
        i.help_opt_j,
        "",
        i.help_examples,
        "  motd-cli be play.craftersmc.net:19132",
        "  motd-cli je play.hypixel.net",
        "  motd-cli play.craftersmc.net",
        "  motd-cli -v be play.craftersmc.net",
    ];
    push_line(&mut out, first.as_str());
    proof {
        lemma_with_newlines_push(lines, first@);
        lines = lines.push(first@);
    }
    let mut k: usize = 0;
    while k < 19
        invariant
            k <= 19,
            items@.len() == 19,
            lines == help_lines(*i).take(k + 1),
            out@ == with_newlines(lines),
            forall|j: int| 0 <= j < 19 ==> #[trigger] items@[j]@ == help_lines(*i)[j + 1],
        decreases 19 - k,
    {
        push_line(&mut out, items[k]);
        proof {
            lemma_with_newlines_push(lines, items@[k as int]@);
            lines = lines.push(items@[k as int]@);
        }
        k = k + 1;
        assert(lines =~= help_lines(*i).take(k + 1));
    }
    assert(lines =~= help_lines(*i));
    out
}

/// A text field as shown: formatting codes become ANSI sequences where
/// colours are used, and are removed otherwise.
pub open spec fn formatted(text: Seq<char>, use_color: bool) -> Seq<char> {
    if use_color {
        mc_color_to_ansi_spec(text)
    } else {
        strip_spec(text)
    }
}

/// A text field shows the same characters with colours on and off: where
/// every `§` is followed by a known formatting code and the text holds no
/// ESC, deleting every escape sequence `ESC [` digits `m` from the coloured
/// form gives the plain form.
pub proof fn lemma_formatted_same_text(text: Seq<char>)
    requires
        codes_known(text),
        !text.contains('\x1b'),
    ensures
        delete_sgr(formatted(text, true)) == formatted(text, false),
{
    lemma_color_and_plain_show_same_text(text);
}

/// Formats a text field for the terminal.
pub fn format_mc_text(text: &str, use_color: bool) -> (r: String)
    ensures
        r@ == formatted(text@, use_color),
{
    if use_color {
        mc_color_to_ansi(text)
    } else {
        strip_mc_color(text)
    }
}

/// The announcement of a query. Where the host is the address it resolved
/// to, `{}` in the short message becomes the address; otherwise the three
/// `{}` of the long message become the address, the IP and the port.
pub open spec fn fetching_line_spec(
    i: I18n,
    address: Seq<char>,
    host: Seq<char>,
    ip: Seq<char>,
    port: u16,
) -> Seq<char> {
    if host == ip {
        replace_all(i.fetching@, "{}"@, address)
    } else {
        replace_first_n(
            replace_first_n(replace_first_n(i.fetching_ip@, "{}"@, address, 1), "{}"@, ip, 1),
            "{}"@,
            decimal(port as nat),
            1,
        )
    }
}

fn replace_every(s: &str, pat: &str, rep: &str) -> (r: String)
    requires
        pat@.len() > 0,
    ensures
        r@ == replace_all(s@, pat@, rep@),
{
    let n = s.unicode_len();
    let r = replacen(s, pat, rep, n);
    proof {
        lemma_replace_enough(s@, pat@, rep@, n as nat);
    }
    r
}

proof fn lemma_replace_enough(s: Seq<char>, pat: Seq<char>, rep: Seq<char>, n: nat)
    requires
        n >= s.len(),
    ensures
        replace_first_n(s, pat, rep, n) == replace_all(s, pat, rep),
    decreases s.len(),
{
    if pat.len() > 0 && s.len() > 0 {
        if crate::text::occurs_at(s, pat, 0) {
            lemma_replace_enough(s.skip(pat.len() as int), pat, rep, (n - 1) as nat);
        } else {
            lemma_replace_enough(s.skip(1), pat, rep, n);
        }
    }
}

/// The line announcing a query of `address`, resolved to `ip`.
pub fn fetching_line(i: &I18n, address: &str, host: &str, ip: &str, port: u16) -> (r: String)
    ensures
        r@ == fetching_line_spec(*i, address@, host@, ip@, port),
{
    proof {
        reveal_strlit("{}");
    }
    if str_eq(host, ip) {
        replace_every(i.fetching, "{}", address)
    } else {
        let a = replacen(i.fetching_ip, "{}", address, 1);
        let b = replacen(a.as_str(), "{}", ip, 1);
        let p = u64_to_decimal(port as u64);
        replacen(b.as_str(), "{}", p.as_str(), 1)
    }
}

/// The JSON printed when a query fails.
pub open spec fn offline_json_spec(error: Seq<char>) -> Seq<char> {
    "{\"status\": \"offline\", \"error\": \""@ + error + "\"}"@
}

/// Builds the JSON printed when a query fails, quoting the error as it is.
pub fn offline_json(error: &str) -> (r: String)
    ensures
        r@ == offline_json_spec(error@),
{
    let mut r = String::from_str("{\"status\": \"offline\", \"error\": \"");
    r.append(error);
    r.append("\"}");
    r
}

/// A labelled line: two spaces, the label, a colon, the gap, the value.
pub open spec fn labelled(label: Seq<char>, gap: Seq<char>, value: Seq<char>) -> Seq<char> {
    "  "@ + label + ":"@ + gap + value
}

fn labelled_line(out: &mut String, label: &str, gap: &str, value: &str)
    ensures
        final(out)@ == old(out)@ + labelled(label@, gap@, value@) + seq!['\n'],
{
    out.append("  ");
    out.append(label);
    out.append(":");
    out.append(gap);
    out.append(value);
    push_char(out, '\n');
}

/// The lines that introduce a guessed answer: an empty line and the
/// edition.
pub open spec fn type_lines(edition: Seq<char>) -> Seq<Seq<char>> {
    seq![""@, labelled("类型"@, "      "@, edition)]
}

/// How a Bedrock Edition answer is shown: "offline" for an offline server;
/// otherwise delay, players, protocol, version, level name, game mode and
/// MOTD, preceded by the edition where the answer was guessed.
pub open spec fn bedrock_lines(i: I18n, info: MotdBEInfo, use_color: bool, guessed: bool) -> Seq<
    Seq<char>,
> {
    if info.status@ == "offline"@ && !guessed {
        seq![i.offline@]
    } else {
        (if guessed {
            type_lines(i.type_be@)
        } else {
            Seq::<Seq<char>>::empty()
        }) + seq![
            labelled(i.delay@, "      "@, signed_decimal(info.delay as int) + "ms"@),
            labelled(
                i.online@,
                "  "@,
                signed_decimal(info.online as int) + "/"@ + signed_decimal(info.max as int),
            ),
            labelled(i.protocol@, "  "@, signed_decimal(info.agreement as int)),
            labelled(i.version@, "  "@, info.version@),
            labelled(i.level_name@, "  "@, formatted(info.level_name@, use_color)),
            labelled(i.game_mode@, "  "@, info.game_mode@),
            labelled(i.motd@, "      "@, formatted(info.motd@, use_color)),
        ]
    }
}

/// How a Java Edition answer is shown: "offline" for an offline server;
/// otherwise delay, players, protocol, version and MOTD, preceded by the
/// edition where the answer was guessed.
pub open spec fn java_lines(i: I18n, info: MotdJavaInfo, use_color: bool, guessed: bool) -> Seq<
    Seq<char>,
> {
    if info.status@ == "offline"@ && !guessed {
        seq![i.offline@]
    } else {
        (if guessed {
            type_lines(i.type_je@)
        } else {
            Seq::<Seq<char>>::empty()
        }) + seq![
            labelled(i.delay@, "      "@, signed_decimal(info.delay as int) + "ms"@),
            labelled(
                i.online@,
                "  "@,
                signed_decimal(info.online as int) + "/"@ + signed_decimal(info.max as int),
            ),
            labelled(i.protocol@, "  "@, signed_decimal(info.agreement as int)),
            labelled(i.version@, "  "@, info.version@),
            labelled(i.motd@, "      "@, formatted(info.motd@, use_color)),
        ]
    }
}

fn players_text(online: i32, max: i32) -> (r: String)
    ensures
        r@ == signed_decimal(online as int) + "/"@ + signed_decimal(max as int),
{
    let mut r = i64_to_decimal(online as i64);
    r.append("/");
    let m = i64_to_decimal(max as i64);
    r.append(m.as_str());
    r
}

fn delay_text(delay: i64) -> (r: String)
    ensures
        r@ == signed_decimal(delay as int) + "ms"@,
{
    let mut r = i64_to_decimal(delay);
    r.append("ms");
    r
}

/// Renders a Bedrock Edition answer.
pub fn render_bedrock(i: &I18n, info: &MotdBEInfo, use_color: bool, guessed: bool) -> (r: String)
    ensures
        r@ == with_newlines(bedrock_lines(*i, *info, use_color, guessed)),
{
    let mut out = String::new();
    let ghost mut lines = Seq::<Seq<char>>::empty();
    if !guessed && str_eq(info.status.as_str(), "offline") {
        push_line(&mut out, i.offline);
        proof {
            lemma_with_newlines_push(lines, i.offline@);
            lines = lines.push(i.offline@);
        }
        assert(lines =~= bedrock_lines(*i, *info, use_color, guessed));
        return out;
    }
    if guessed {
        push_line(&mut out, "");
        proof {
            lemma_with_newlines_push(lines, ""@);
            lines = lines.push(""@);
        }
        labelled_line(&mut out, "类型", "      ", i.type_be);
        proof {
            let l = labelled("类型"@, "      "@, i.type_be@);
            lemma_with_newlines_push(lines, l);
            lines = lines.push(l);
        }
    }
    let d = delay_text(info.delay);
    labelled_line(&mut out, i.delay, "      ", d.as_str());
    proof {
        let l = labelled(i.delay@, "      "@, d@);
        lemma_with_newlines_push(lines, l);
        lines = lines.push(l);
    }
    let p = players_text(info.online, info.max);
    labelled_line(&mut out, i.online, "  ", p.as_str());
    proof {
        let l = labelled(i.online@, "  "@, p@);
        lemma_with_newlines_push(lines, l);
        lines = lines.push(l);
    }
    let a = i64_to_decimal(info.agreement as i64);
    labelled_line(&mut out, i.protocol, "  ", a.as_str());
    proof {
        let l = labelled(i.protocol@, "  "@, a@);
        lemma_with_newlines_push(lines, l);
        lines = lines.push(l);
    }
    labelled_line(&mut out, i.version, "  ", info.version.as_str());
    proof {
        let l = labelled(i.version@, "  "@, info.version@);
        lemma_with_newlines_push(lines, l);
        lines = lines.push(l);
    }
    let lv = format_mc_text(info.level_name.as_str(), use_color);
    labelled_line(&mut out, i.level_name, "  ", lv.as_str());
    proof {
        let l = labelled(i.level_name@, "  "@, lv@);
        lemma_with_newlines_push(lines, l);
        lines = lines.push(l);
    }
    labelled_line(&mut out, i.game_mode, "  ", info.game_mode.as_str());
    proof {
        let l = labelled(i.game_mode@, "  "@, info.game_mode@);
        lemma_with_newlines_push(lines, l);
        lines = lines.push(l);
    }
    let m = format_mc_text(info.motd.as_str(), use_color);
    labelled_line(&mut out, i.motd, "      ", m.as_str());
    proof {
        let l = labelled(i.motd@, "      "@, m@);
        lemma_with_newlines_push(lines, l);
        lines = lines.push(l);
    }
    assert(lines =~= bedrock_lines(*i, *info, use_color, guessed));
    out
}

/// Renders a Java Edition answer.
pub fn render_java(i: &I18n, info: &MotdJavaInfo, use_color: bool, guessed: bool) -> (r: String)
    ensures
        r@ == with_newlines(java_lines(*i, *info, use_color, guessed)),
{
    let mut out = String::new();
    let ghost mut lines = Seq::<Seq<char>>::empty();
    if !guessed && str_eq(info.status.as_str(), "offline") {
        push_line(&mut out, i.offline);
        proof {
            lemma_with_newlines_push(lines, i.offline@);
            lines = lines.push(i.offline@);
        }
        assert(lines =~= java_lines(*i, *info, use_color, guessed));
        return out;
    }
    if guessed {
        push_line(&mut out, "");
        proof {
            lemma_with_newlines_push(lines, ""@);
            lines = lines.push(""@);
        }
        labelled_line(&mut out, "类型", "      ", i.type_je);
        proof {
            let l = labelled("类型"@, "      "@, i.type_je@);
            lemma_with_newlines_push(lines, l);
            lines = lines.push(l);
        }
    }
    let d = delay_text(info.delay);
    labelled_line(&mut out, i.delay, "      ", d.as_str());
    proof {
        let l = labelled(i.delay@, "      "@, d@);
        lemma_with_newlines_push(lines, l);
        lines = lines.push(l);
    }
    let p = players_text(info.online, info.max);
    labelled_line(&mut out, i.online, "  ", p.as_str());
    proof {
        let l = labelled(i.online@, "  "@, p@);
        lemma_with_newlines_push(lines, l);
        lines = lines.push(l);
    }
    let a = i64_to_decimal(info.agreement as i64);
    labelled_line(&mut out, i.protocol, "  ", a.as_str());
    proof {
        let l = labelled(i.protocol@, "  "@, a@);
        lemma_with_newlines_push(lines, l);
        lines = lines.push(l);
    }
    labelled_line(&mut out, i.version, "  ", info.version.as_str());
    proof {
        let l = labelled(i.version@, "  "@, info.version@);
        lemma_with_newlines_push(lines, l);
        lines = lines.push(l);
    }
    let m = format_mc_text(info.motd.as_str(), use_color);
    labelled_line(&mut out, i.motd, "      ", m.as_str());
    proof {
        let l = labelled(i.motd@, "      "@, m@);
        lemma_with_newlines_push(lines, l);
        lines = lines.push(l);
    }
    assert(lines =~= java_lines(*i, *info, use_color, guessed));
    out
}

/// `x` occurs in neither part, so not in the two together.
proof fn lemma_concat_lacks(a: Seq<char>, b: Seq<char>, x: char)
    requires
        !a.contains(x),
        !b.contains(x),
    ensures
        !(a + b).contains(x),
{
    assert forall|k: int| 0 <= k < (a + b).len() implies (a + b)[k] != x by {
        if k < a.len() {
            assert((a + b)[k] == a[k]);
        } else {
            assert((a + b)[k] == b[k - a.len()]);
        }
    }
}

/// The MOTD as its line shows it: converted to escape sequences with
/// colours on, stripped of its codes with colours off.
pub open spec fn motd_line(i: I18n, motd: Seq<char>, use_color: bool) -> Seq<char> {
    "  "@ + i.motd@ + ":"@ + "      "@ + (if use_color {
        mc_color_to_ansi_spec(motd)
    } else {
        strip_spec(motd)
    })
}

/// A guessed answer is the answer shown for its edition, after an empty
/// line and the line that names the edition.
pub proof fn lemma_guessed_adds_edition(
    i: I18n,
    be: MotdBEInfo,
    je: MotdJavaInfo,
    use_color: bool,
)
    ensures
        be.status@ != "offline"@ ==> bedrock_lines(i, be, use_color, true) == type_lines(i.type_be@)
            + bedrock_lines(i, be, use_color, false),
        je.status@ != "offline"@ ==> java_lines(i, je, use_color, true) == type_lines(i.type_je@)
            + java_lines(i, je, use_color, false),
{
    if be.status@ != "offline"@ {
        assert(bedrock_lines(i, be, use_color, true) =~= type_lines(i.type_be@) + bedrock_lines(
            i,
            be,
            use_color,
            false,
        ));
    }
    if je.status@ != "offline"@ {
        assert(java_lines(i, je, use_color, true) =~= type_lines(i.type_je@) + java_lines(
            i,
            je,
            use_color,
            false,
        ));
    }
}

/// Of a shown answer, guessed or not, the line after the delay gives the
/// players online, a slash, and the most players, and the last line gives
/// the MOTD; the two editions show the same MOTD line for the same MOTD.
pub proof fn lemma_players_and_motd_lines(
    i: I18n,
    be: MotdBEInfo,
    je: MotdJavaInfo,
    use_color: bool,
    guessed: bool,
)
    ensures
        (be.status@ != "offline"@ || guessed) ==> {
            let lines = bedrock_lines(i, be, use_color, guessed);
            &&& lines[(if guessed { 3int } else { 1int })] == "  "@ + i.online@ + ":"@ + "  "@
                + signed_decimal(be.online as int) + "/"@ + signed_decimal(be.max as int)
            &&& lines.last() == motd_line(i, be.motd@, use_color)
        },
        (je.status@ != "offline"@ || guessed) ==> {
            let lines = java_lines(i, je, use_color, guessed);
            &&& lines[(if guessed { 3int } else { 1int })] == "  "@ + i.online@ + ":"@ + "  "@
                + signed_decimal(je.online as int) + "/"@ + signed_decimal(je.max as int)
            &&& lines.last() == motd_line(i, je.motd@, use_color)
        },
{
}

/// The two editions show delay, players, protocol and version the same way:
/// for the same values, the four lines after the edition lines agree.
pub proof fn lemma_editions_share_lines(
    i: I18n,
    be: MotdBEInfo,
    je: MotdJavaInfo,
    use_color: bool,
    guessed: bool,
)
    requires
        be.status@ != "offline"@ || guessed,
        je.status@ != "offline"@ || guessed,
        be.delay == je.delay,
        be.online == je.online,
        be.max == je.max,
        be.agreement == je.agreement,
        be.version@ == je.version@,
    ensures
        ({
            let off: int = if guessed { 2 } else { 0 };
            bedrock_lines(i, be, use_color, guessed).subrange(off, off + 4) == java_lines(
                i,
                je,
                use_color,
                guessed,
            ).subrange(off, off + 4)
        }),
{
    let off: int = if guessed { 2 } else { 0 };
    assert(bedrock_lines(i, be, use_color, guessed).subrange(off, off + 4) =~= java_lines(
        i,
        je,
        use_color,
        guessed,
    ).subrange(off, off + 4));
}

/// With colours on, the MOTD line holds no `§` where every code of the MOTD
/// is known; and deleting its escape sequences gives the line shown with
/// colours off, where neither the MOTD nor its label holds an ESC.
pub proof fn lemma_motd_line_colours(i: I18n, motd: Seq<char>)
    ensures
        codes_known(motd) && !i.motd@.contains(section()) ==> !motd_line(i, motd, true).contains(
            section(),
        ),
        codes_known(motd) && !motd.contains('\x1b') && !i.motd@.contains('\x1b') ==> delete_sgr(
            motd_line(i, motd, true),
        ) == motd_line(i, motd, false),
{
    reveal_strlit("  ");
    reveal_strlit(":");
    reveal_strlit("      ");
    let two = "  "@;
    let colon = ":"@;
    let six = "      "@;
    assert(!two.contains(section()) && !two.contains('\x1b')) by {
        assert(two =~= seq![' ', ' ']);
    }
    assert(!colon.contains(section()) && !colon.contains('\x1b')) by {
        assert(colon =~= seq![':']);
    }
    assert(!six.contains(section()) && !six.contains('\x1b')) by {
        assert(six =~= seq![' ', ' ', ' ', ' ', ' ', ' ']);
    }
    if codes_known(motd) && !i.motd@.contains(section()) {
        lemma_ansi_leaves_no_section(motd);
        lemma_concat_lacks(two, i.motd@, section());
        lemma_concat_lacks(two + i.motd@, colon, section());
        lemma_concat_lacks(two + i.motd@ + colon, six, section());
        lemma_concat_lacks(two + i.motd@ + colon + six, mc_color_to_ansi_spec(motd), section());
    }
    if codes_known(motd) && !motd.contains('\x1b') && !i.motd@.contains('\x1b') {
        let x: char = '\x1b';
        lemma_concat_lacks(two, i.motd@, x);
        lemma_concat_lacks(two + i.motd@, colon, x);
        lemma_concat_lacks(two + i.motd@ + colon, six, x);
        let p = two + i.motd@ + colon + six;
        lemma_delete_sgr_keeps_plain(p, mc_color_to_ansi_spec(motd));
        lemma_color_and_plain_show_same_text(motd);
    }
}

/// A Bedrock Edition answer as printed in JSON: without colours, the MOTD
/// and level name lose their formatting codes.
pub fn bedrock_for_json(info: MotdBEInfo, use_color: bool) -> (r: MotdBEInfo)
    ensures
        r.motd@ == (if use_color {
            info.motd@
        } else {
            strip_spec(info.motd@)
        }),
        r.level_name@ == (if use_color {
            info.level_name@
        } else {
            strip_spec(info.level_name@)
        }),
        r.status == info.status && r.host == info.host && r.agreement == info.agreement,
        r.version == info.version && r.online == info.online && r.max == info.max,
        r.game_mode == info.game_mode && r.server_unique_id == info.server_unique_id,
        r.delay == info.delay,
{
    let mut r = info;
    if !use_color {
        r.motd = strip_mc_color(r.motd.as_str());
        r.level_name = strip_mc_color(r.level_name.as_str());
    }
    r
}

/// A Java Edition answer as printed in JSON: without colours, the MOTD
/// loses its formatting codes.
pub fn java_for_json(info: MotdJavaInfo, use_color: bool) -> (r: MotdJavaInfo)
    ensures
        r.motd@ == (if use_color {
            info.motd@
        } else {
            strip_spec(info.motd@)
        }),
        r.status == info.status && r.host == info.host && r.agreement == info.agreement,
        r.version == info.version && r.online == info.online && r.max == info.max,
        r.delay == info.delay,
{
    let mut r = info;
    if !use_color {
        r.motd = strip_mc_color(r.motd.as_str());
    }
    r
}

} // verus!
