//! Server addresses (default ports, host/port splitting) and Minecraft `§`
//! formatting codes (conversion to ANSI escape sequences, stripping).
use vstd::prelude::*;
use crate::text::{
    all_digits, chars_of, lemma_digit_char, contains_seq, decimal, digit_char, digit_value, digits_value, is_digit, last_index_of,
    parse_u16, parse_u16_spec, push_char, rfind_char, str_eq, string_of_chars, u64_to_decimal,
    vec_contains,
};

verus! {

/// The section sign that introduces a Minecraft formatting code.
pub open spec fn section() -> char {
    '\u{00A7}'
}

// ---------------------------------------------------------------------------
// Addresses
// ---------------------------------------------------------------------------
/// An address that already names a port is kept; otherwise `:port` is
/// appended with the port in decimal.
pub open spec fn complete_port_spec(address: Seq<char>, default_port: u16) -> Seq<char> {
    if address.contains(':') {
        address
    } else {
        address + seq![':'] + decimal(default_port as nat)
    }
}

/// Adds the default port to an address that has none.
pub fn complete_port(address: &str, default_port: u16) -> (r: String)
    ensures
        r@ == complete_port_spec(address@, default_port),
{
    let v = chars_of(address);
    match rfind_char(&v, ':') {
        Some(_) => string_of_chars(&v),
        None => {
            let mut r = string_of_chars(&v);
            push_char(&mut r, ':');
            let p = u64_to_decimal(default_port as u64);
            r.append(p.as_str());
            r
        },
    }
}

/// Host and port of an address split at its last `:`: the host is what
/// precedes it, the port what follows it read as a `u16`, or `fallback`
/// where that is not a valid port. Without a `:` the whole address is the
/// host and the port is `fallback`.
pub open spec fn split_host_port_spec(address: Seq<char>, fallback: u16) -> (Seq<char>, u16) {
    match last_index_of(address, ':') {
        Some(k) => (
            address.take(k),
            match parse_u16_spec(address.skip(k + 1)) {
                Some(p) => p,
                None => fallback,
            },
        ),
        None => (address, fallback),
    }
}

/// Splits an address into host and port; `fallback` stands for a port that
/// is missing or not a valid `u16`.
pub fn split_host_port(address: &str, fallback: u16) -> (r: (&str, u16))
    ensures
        (r.0@, r.1) == split_host_port_spec(address@, fallback),
{
    let v = chars_of(address);
    match rfind_char(&v, ':') {
        Some(k) => {
            let host = address.substring_char(0, k);
            let port_str = address.substring_char(k + 1, v.len());
            let port = match parse_u16(port_str) {
                Some(p) => p,
                None => fallback,
            };
            assert(port_str@ =~= address@.skip(k + 1));
            (host, port)
        },
        None => (address, fallback),
    }
}

/// Splits an address (with port) into host and port number; a port that is
/// missing or not a valid `u16` reads as 0.
pub fn split_address(address: &str) -> (r: (&str, u16))
    ensures
        (r.0@, r.1) == split_host_port_spec(address@, 0),
{
    split_host_port(address, 0)
}

/// Completing an address that has been completed already changes nothing.
pub proof fn lemma_complete_port_idempotent(address: Seq<char>, port: u16, other: u16)
    ensures
        complete_port_spec(complete_port_spec(address, port), other) == complete_port_spec(
            address,
            port,
        ),
{
    let full = complete_port_spec(address, port);
    if !address.contains(':') {
        assert(full[address.len() as int] == ':');
    }
}

/// For an address without a port, completing it with a port and splitting
/// the result again gives back the address and that port.
pub proof fn lemma_split_completed_address(address: Seq<char>, port: u16)
    requires
        !address.contains(':'),
    ensures
        split_host_port_spec(complete_port_spec(address, port), 0) == (address, port),
{
    let full = complete_port_spec(address, port);
    let k = address.len() as int;
    let digits = decimal(port as nat);
    lemma_decimal_digits(port as nat);
    assert(full =~= address + seq![':'] + digits);
    lemma_last_colon(address, digits);
    assert(full.take(k) =~= address);
    assert(full.skip(k + 1) =~= digits);
    lemma_parse_decimal_u16(port);
}

proof fn lemma_last_colon(address: Seq<char>, digits: Seq<char>)
    requires
        !address.contains(':'),
        all_digits(digits),
    ensures
        last_index_of(address + seq![':'] + digits, ':') == Some(address.len() as int),
    decreases digits.len(),
{
    let full = address + seq![':'] + digits;
    if digits.len() == 0 {
        assert(full.last() == ':');
    } else {
        assert(is_digit(digits[digits.len() - 1]));
        assert(full.last() == digits.last());
        assert(full.drop_last() =~= address + seq![':'] + digits.drop_last());
        assert(all_digits(digits.drop_last())) by {
            assert forall|i: int| 0 <= i < digits.drop_last().len() implies #[trigger] is_digit(
                digits.drop_last()[i],
            ) by {
                assert(digits.drop_last()[i] == digits[i]);
            }
        }
        lemma_last_colon(address, digits.drop_last());
    }
}

/// Decimal renderings are nonempty strings of digits.
pub proof fn lemma_decimal_digits(n: nat)
    ensures
        all_digits(decimal(n)),
        decimal(n).len() > 0,
    decreases n,
{
    lemma_digit_char(n % 10);
    if n >= 10 {
        lemma_decimal_digits(n / 10);
        let d = decimal(n / 10).push(digit_char(n % 10));
        assert forall|i: int| 0 <= i < d.len() implies #[trigger] is_digit(d[i]) by {
            if i < d.len() - 1 {
                assert(d[i] == decimal(n / 10)[i]);
            }
        }
    }
}

/// Reading a decimal rendering back gives the number.
pub proof fn lemma_decimal_value(n: nat)
    ensures
        digits_value(decimal(n)) == n,
    decreases n,
{
    lemma_digit_char(n % 10);
    if n >= 10 {
        lemma_decimal_value(n / 10);
        assert(decimal(n).drop_last() =~= decimal(n / 10));
        assert(decimal(n).last() == digit_char(n % 10));
        assert(digits_value(decimal(n)) == digits_value(decimal(n / 10)) * 10 + digit_value(
            digit_char(n % 10),
        ));
        assert(n == (n / 10) * 10 + n % 10);
    } else {
        assert(decimal(n).drop_last() =~= Seq::<char>::empty());
        assert(decimal(n).last() == digit_char(n));
        assert(digits_value(decimal(n)) == digits_value(Seq::<char>::empty()) * 10 + digit_value(
            digit_char(n),
        ));
    }
}

/// `str::parse::<u16>` reads back the decimal rendering of any `u16`.
pub proof fn lemma_parse_decimal_u16(p: u16)
    ensures
        parse_u16_spec(decimal(p as nat)) == Some(p),
{
    lemma_decimal_digits(p as nat);
    lemma_decimal_value(p as nat);
    let d = decimal(p as nat);
    assert(is_digit(d[0]));
}

// ---------------------------------------------------------------------------
// Formatting codes
// ---------------------------------------------------------------------------
/// The ANSI escape sequence that stands for a Minecraft formatting code:
/// colours `0`-`f`, bold `l`, strikethrough `m`, underline `n`, italic `o`,
/// reset `r`, and nothing for obfuscated `k` (letters in either case).
/// Other codes have none.
pub open spec fn ansi_for(code: char) -> Option<Seq<char>> {
    if code == '0' {
        Some("\x1b[30m"@)
    } else if code == '1' {
        Some("\x1b[34m"@)
    } else if code == '2' {
        Some("\x1b[32m"@)
    } else if code == '3' {
        Some("\x1b[36m"@)
    } else if code == '4' {
        Some("\x1b[31m"@)
    } else if code == '5' {
        Some("\x1b[35m"@)
    } else if code == '6' {
        Some("\x1b[33m"@)
    } else if code == '7' {
        Some("\x1b[37m"@)
    } else if code == '8' {
        Some("\x1b[90m"@)
    } else if code == '9' {
        Some("\x1b[94m"@)
    } else if code == 'a' || code == 'A' {
        Some("\x1b[92m"@)
    } else if code == 'b' || code == 'B' {
        Some("\x1b[96m"@)
    } else if code == 'c' || code == 'C' {
        Some("\x1b[91m"@)
    } else if code == 'd' || code == 'D' {
        Some("\x1b[95m"@)
    } else if code == 'e' || code == 'E' {
        Some("\x1b[93m"@)
    } else if code == 'f' || code == 'F' {
        Some("\x1b[97m"@)
    } else if code == 'l' || code == 'L' {
        Some("\x1b[1m"@)
    } else if code == 'm' || code == 'M' {
        Some("\x1b[9m"@)
    } else if code == 'n' || code == 'N' {
        Some("\x1b[4m"@)
    } else if code == 'o' || code == 'O' {
        Some("\x1b[3m"@)
    } else if code == 'r' || code == 'R' {
        Some("\x1b[0m"@)
    } else if code == 'k' || code == 'K' {
        Some(""@)
    } else {
        None
    }
}

fn ansi_code(code: char) -> (r: Option<&'static str>)
    ensures
        r matches Some(a) ==> ansi_for(code) == Some(a@),
        r is None <==> ansi_for(code) is None,
{
    if code == '0' {
        Some("\x1b[30m")
    } else if code == '1' {
        Some("\x1b[34m")
    } else if code == '2' {
        Some("\x1b[32m")
    } else if code == '3' {
        Some("\x1b[36m")
    } else if code == '4' {
        Some("\x1b[31m")
    } else if code == '5' {
        Some("\x1b[35m")
    } else if code == '6' {
        Some("\x1b[33m")
    } else if code == '7' {
        Some("\x1b[37m")
    } else if code == '8' {
        Some("\x1b[90m")
    } else if code == '9' {
        Some("\x1b[94m")
    } else if code == 'a' || code == 'A' {
        Some("\x1b[92m")
    } else if code == 'b' || code == 'B' {
        Some("\x1b[96m")
    } else if code == 'c' || code == 'C' {
        Some("\x1b[91m")
    } else if code == 'd' || code == 'D' {
        Some("\x1b[95m")
    } else if code == 'e' || code == 'E' {
        Some("\x1b[93m")
    } else if code == 'f' || code == 'F' {
        Some("\x1b[97m")
    } else if code == 'l' || code == 'L' {
        Some("\x1b[1m")
    } else if code == 'm' || code == 'M' {
        Some("\x1b[9m")
    } else if code == 'n' || code == 'N' {
        Some("\x1b[4m")
    } else if code == 'o' || code == 'O' {
        Some("\x1b[3m")
    } else if code == 'r' || code == 'R' {
        Some("\x1b[0m")
    } else if code == 'k' || code == 'K' {
        Some("")
    } else {
        None
    }
}

/// Each `§` and the character after it become that code's escape sequence;
/// an unknown code is kept as it is, and so is a `§` at the very end.
pub open spec fn ansi_body(s: Seq<char>) -> Seq<char>
    decreases s.len(),
{
    if s.len() == 0 {
        s
    } else if s[0] == section() {
        if s.len() == 1 {
            s
        } else {
            match ansi_for(s[1]) {
                Some(a) => a + ansi_body(s.skip(2)),
                None => seq![section(), s[1]] + ansi_body(s.skip(2)),
            }
        }
    } else {
        seq![s[0]] + ansi_body(s.skip(1))
    }
}

/// The control sequence introducer `ESC [`.
pub open spec fn csi() -> Seq<char> {
    seq!['\x1b', '[']
}

/// The converted text, followed by a reset whenever it holds an escape
/// sequence.
pub open spec fn mc_color_to_ansi_spec(s: Seq<char>) -> Seq<char> {
    let body = ansi_body(s);
    if contains_seq(body, csi()) {
        body + "\x1b[0m"@
    } else {
        body
    }
}

/// Converts Minecraft `§` formatting codes to ANSI terminal escape sequences.
pub fn mc_color_to_ansi(text: &str) -> (r: String)
    ensures
        r@ == mc_color_to_ansi_spec(text@),
{
    let v = chars_of(text);
    let mut result = String::new();
    let mut i: usize = 0;
    assert(v@.skip(0) =~= v@);
    while i < v.len()
        invariant
            v@ == text@,
            i <= v.len(),
            result@ + ansi_body(v@.skip(i as int)) == ansi_body(v@),
        decreases v.len() - i,
    {
        let ghost rest = v@.skip(i as int);
        let ghost before = result@;
        let ch = v[i];
        if ch == '\u{00A7}' {
            if i + 1 < v.len() {
                let code = v[i + 1];
                match ansi_code(code) {
                    Some(a) => {
                        result.append(a);
                    },
                    None => {
                        push_char(&mut result, '\u{00A7}');
                        push_char(&mut result, code);
                        assert(result@ =~= before + seq![section(), code]);
                    },
                }
                i = i + 2;
                assert(rest.skip(2) =~= v@.skip(i as int));
            } else {
                push_char(&mut result, ch);
                i = i + 1;
                assert(rest =~= seq![ch]);
                assert(v@.skip(i as int) =~= Seq::<char>::empty());
            }
        } else {
            push_char(&mut result, ch);
            i = i + 1;
            assert(rest.skip(1) =~= v@.skip(i as int));
        }
        assert(result@ + ansi_body(v@.skip(i as int)) =~= before + ansi_body(rest));
    }
    assert(v@.skip(i as int) =~= Seq::<char>::empty());
    assert(result@ =~= ansi_body(v@));
    let produced = chars_of(result.as_str());
    let mut introducer: Vec<char> = Vec::new();
    introducer.push('\x1b');
    introducer.push('[');
    assert(introducer@ =~= csi());
    if vec_contains(&produced, &introducer) {
        result.append("\x1b[0m");
    }
    result
}

/// Each `§` is dropped together with the character after it.
pub open spec fn strip_spec(s: Seq<char>) -> Seq<char>
    decreases s.len(),
{
    if s.len() == 0 {
        s
    } else if s[0] == section() {
        if s.len() == 1 {
            Seq::<char>::empty()
        } else {
            strip_spec(s.skip(2))
        }
    } else {
        seq![s[0]] + strip_spec(s.skip(1))
    }
}

/// Removes Minecraft `§` formatting codes, leaving the plain text.
pub fn strip_mc_color(text: &str) -> (r: String)
    ensures
        r@ == strip_spec(text@),
{
    let v = chars_of(text);
    let mut result = String::new();
    let mut i: usize = 0;
    assert(v@.skip(0) =~= v@);
    while i < v.len()
        invariant
            v@ == text@,
            i <= v.len(),
            result@ + strip_spec(v@.skip(i as int)) == strip_spec(v@),
        decreases v.len() - i,
    {
        let ghost rest = v@.skip(i as int);
        let ghost before = result@;
        let ch = v[i];
        if ch == '\u{00A7}' {
            if i + 1 < v.len() {
                i = i + 2;
                assert(rest.skip(2) =~= v@.skip(i as int));
            } else {
                i = i + 1;
                assert(v@.skip(i as int) =~= Seq::<char>::empty());
            }
        } else {
            push_char(&mut result, ch);
            i = i + 1;
            assert(rest.skip(1) =~= v@.skip(i as int));
        }
        assert(result@ + strip_spec(v@.skip(i as int)) =~= before + strip_spec(rest));
    }
    assert(v@.skip(i as int) =~= Seq::<char>::empty());
    assert(result@ =~= strip_spec(v@));
    result
}

/// Stripping leaves no `§` behind.
pub proof fn lemma_strip_removes_sections(s: Seq<char>)
    ensures
        !strip_spec(s).contains(section()),
    decreases s.len(),
{
    if s.len() > 0 {
        if s[0] == section() {
            if s.len() > 1 {
                lemma_strip_removes_sections(s.skip(2));
            }
        } else {
            lemma_strip_removes_sections(s.skip(1));
            let r = strip_spec(s);
            assert(r =~= seq![s[0]] + strip_spec(s.skip(1)));
            if r.contains(section()) {
                let k = choose|k: int| 0 <= k < r.len() && r[k] == section();
                assert(k > 0);
                assert(strip_spec(s.skip(1))[k - 1] == section());
            }
        }
    }
}

/// Text without `§` is left unchanged by stripping.
pub proof fn lemma_strip_plain_text(s: Seq<char>)
    requires
        !s.contains(section()),
    ensures
        strip_spec(s) == s,
    decreases s.len(),
{
    if s.len() > 0 {
        assert(s[0] != section());
        assert(!s.skip(1).contains(section())) by {
            if s.skip(1).contains(section()) {
                let k = choose|k: int| 0 <= k < s.skip(1).len() && s.skip(1)[k] == section();
                assert(s[k + 1] == section());
            }
        }
        lemma_strip_plain_text(s.skip(1));
        assert(seq![s[0]] + s.skip(1) =~= s);
    }
}

/// Stripping twice is the same as stripping once.
pub proof fn lemma_strip_idempotent(s: Seq<char>)
    ensures
        strip_spec(strip_spec(s)) == strip_spec(s),
{
    lemma_strip_removes_sections(s);
    lemma_strip_plain_text(strip_spec(s));
}

/// Text without `§` and without an escape sequence is left unchanged by the
/// conversion to ANSI.
pub proof fn lemma_ansi_plain_text(s: Seq<char>)
    requires
        !s.contains(section()),
        !contains_seq(s, csi()),
    ensures
        mc_color_to_ansi_spec(s) == s,
{
    lemma_ansi_body_plain(s);
}

proof fn lemma_ansi_body_plain(s: Seq<char>)
    requires
        !s.contains(section()),
    ensures
        ansi_body(s) == s,
    decreases s.len(),
{
    if s.len() > 0 {
        assert(s[0] != section());
        assert(!s.skip(1).contains(section())) by {
            if s.skip(1).contains(section()) {
                let k = choose|k: int| 0 <= k < s.skip(1).len() && s.skip(1)[k] == section();
                assert(s[k + 1] == section());
            }
        }
        lemma_ansi_body_plain(s.skip(1));
        assert(seq![s[0]] + s.skip(1) =~= s);
    }
}

/// Whenever the converted text holds an escape sequence, it ends with a
/// reset.
pub proof fn lemma_ansi_ends_with_reset(s: Seq<char>)
    ensures
        contains_seq(mc_color_to_ansi_spec(s), csi()) ==> mc_color_to_ansi_spec(s).subrange(
            mc_color_to_ansi_spec(s).len() - "\x1b[0m"@.len(),
            mc_color_to_ansi_spec(s).len() as int,
        ) == "\x1b[0m"@,
{
    let body = ansi_body(s);
    let r = "\x1b[0m"@;
    if contains_seq(body, csi()) {
        let out = body + r;
        assert(out.subrange(out.len() - r.len(), out.len() as int) =~= r);
    }
}

/// The number of ASCII digits at the start of `t`.
pub open spec fn digit_run(t: Seq<char>) -> nat
    decreases t.len(),
{
    if t.len() > 0 && is_digit(t[0]) {
        1 + digit_run(t.skip(1))
    } else {
        0
    }
}

/// The length of the escape sequence `ESC [` digits `m` at the start of
/// `t`, if one stands there.
pub open spec fn sgr_length(t: Seq<char>) -> Option<nat> {
    if t.len() >= 2 && t[0] == '\x1b' && t[1] == '[' {
        let k = digit_run(t.skip(2));
        if 2 + k < t.len() && t[(2 + k) as int] == 'm' {
            Some(3 + k)
        } else {
            None
        }
    } else {
        None
    }
}

/// `t` with every escape sequence `ESC [` digits `m` deleted, read left to
/// right.
pub open spec fn delete_sgr(t: Seq<char>) -> Seq<char>
    decreases t.len(),
{
    if t.len() == 0 {
        t
    } else {
        match sgr_length(t) {
            Some(n) => delete_sgr(t.skip(n as int)),
            None => seq![t[0]] + delete_sgr(t.skip(1)),
        }
    }
}

/// Every `§` is followed by a formatting code that has an ANSI sequence.
pub open spec fn codes_known(s: Seq<char>) -> bool {
    forall|i: int|
        0 <= i < s.len() && #[trigger] s[i] == section() ==> i + 1 < s.len() && ansi_for(s[i + 1])
            is Some
}

/// `a` is one escape sequence `ESC [` digits `m`.
pub open spec fn is_sgr(a: Seq<char>) -> bool {
    &&& a.len() >= 3
    &&& a[0] == '\x1b'
    &&& a[1] == '['
    &&& a[a.len() - 1] == 'm'
    &&& forall|i: int| 2 <= i < a.len() - 1 ==> #[trigger] is_digit(a[i])
}

proof fn lemma_ansi_for_is_sgr(c: char)
    ensures
        ansi_for(c) matches Some(a) ==> a.len() == 0 || is_sgr(a),
{
    reveal_strlit("\x1b[30m");
    reveal_strlit("\x1b[34m");
    reveal_strlit("\x1b[32m");
    reveal_strlit("\x1b[36m");
    reveal_strlit("\x1b[31m");
    reveal_strlit("\x1b[35m");
    reveal_strlit("\x1b[33m");
    reveal_strlit("\x1b[37m");
    reveal_strlit("\x1b[90m");
    reveal_strlit("\x1b[94m");
    reveal_strlit("\x1b[92m");
    reveal_strlit("\x1b[96m");
    reveal_strlit("\x1b[91m");
    reveal_strlit("\x1b[95m");
    reveal_strlit("\x1b[93m");
    reveal_strlit("\x1b[97m");
    reveal_strlit("\x1b[1m");
    reveal_strlit("\x1b[9m");
    reveal_strlit("\x1b[4m");
    reveal_strlit("\x1b[3m");
    reveal_strlit("\x1b[0m");
    reveal_strlit("");
}

proof fn lemma_digit_run_stops(d: Seq<char>, x: Seq<char>)
    requires
        forall|i: int| 0 <= i < d.len() ==> #[trigger] is_digit(d[i]),
    ensures
        digit_run(d + seq!['m'] + x) == d.len(),
    decreases d.len(),
{
    let t = d + seq!['m'] + x;
    if d.len() == 0 {
        assert(t[0] == 'm');
    } else {
        assert(is_digit(d[0]));
        assert(t[0] == d[0]);
        assert(t.skip(1) =~= d.skip(1) + seq!['m'] + x);
        assert forall|i: int| 0 <= i < d.skip(1).len() implies #[trigger] is_digit(d.skip(1)[i]) by {
            assert(d.skip(1)[i] == d[i + 1]);
        }
        lemma_digit_run_stops(d.skip(1), x);
    }
}

proof fn lemma_delete_sgr_prefix(a: Seq<char>, x: Seq<char>)
    requires
        a.len() == 0 || is_sgr(a),
    ensures
        delete_sgr(a + x) == delete_sgr(x),
{
    if a.len() == 0 {
        assert(a + x =~= x);
    } else {
        let t = a + x;
        let d = a.subrange(2, a.len() - 1);
        assert forall|i: int| 0 <= i < d.len() implies #[trigger] is_digit(d[i]) by {
            assert(d[i] == a[i + 2]);
        }
        assert(t.skip(2) =~= d + seq!['m'] + x);
        lemma_digit_run_stops(d, x);
        assert(t[(2 + d.len()) as int] == 'm');
        assert(sgr_length(t) == Some((3 + d.len()) as nat));
        assert(t.skip(a.len() as int) =~= x);
    }
}

proof fn lemma_delete_sgr_plain(c: char, x: Seq<char>)
    requires
        c != '\x1b',
    ensures
        delete_sgr(seq![c] + x) == seq![c] + delete_sgr(x),
{
    let t = seq![c] + x;
    assert(t[0] == c);
    assert(t.skip(1) =~= x);
}

proof fn lemma_delete_ansi_body(s: Seq<char>, tail: Seq<char>)
    requires
        codes_known(s),
        !s.contains('\x1b'),
    ensures
        delete_sgr(ansi_body(s) + tail) == strip_spec(s) + delete_sgr(tail),
    decreases s.len(),
{
    if s.len() == 0 {
        assert(ansi_body(s) + tail =~= tail);
        assert(strip_spec(s) + delete_sgr(tail) =~= delete_sgr(tail));
    } else {
        let rest = if s[0] == section() {
            s.skip(2)
        } else {
            s.skip(1)
        };
        if s[0] == section() {
            assert(1 < s.len() && ansi_for(s[1]) is Some);
        }
        assert(codes_known(rest)) by {
            assert forall|i: int|
                0 <= i < rest.len() && #[trigger] rest[i] == section() implies i + 1 < rest.len()
                && ansi_for(rest[i + 1]) is Some by {
                let off: int = if s[0] == section() {
                    2
                } else {
                    1
                };
                assert(rest[i] == s[i + off]);
                assert(s[i + off] == section());
                assert(rest[i + 1] == s[i + 1 + off]);
            }
        }
        assert(!rest.contains('\x1b')) by {
            if rest.contains('\x1b') {
                let k = choose|k: int| 0 <= k < rest.len() && rest[k] == '\x1b';
                if s[0] == section() {
                    assert(s[k + 2] == '\x1b');
                } else {
                    assert(s[k + 1] == '\x1b');
                }
            }
        }
        lemma_delete_ansi_body(rest, tail);
        if s[0] == section() {
            let a = ansi_for(s[1]).unwrap();
            lemma_ansi_for_is_sgr(s[1]);
            assert(ansi_body(s) + tail =~= a + (ansi_body(rest) + tail));
            lemma_delete_sgr_prefix(a, ansi_body(rest) + tail);
        } else {
            assert(s[0] != '\x1b');
            assert(ansi_body(s) + tail =~= seq![s[0]] + (ansi_body(rest) + tail));
            lemma_delete_sgr_plain(s[0], ansi_body(rest) + tail);
            assert(strip_spec(s) + delete_sgr(tail) =~= seq![s[0]] + (strip_spec(rest) + delete_sgr(
                tail,
            )));
        }
    }
}

/// With colours on and off the same text is visible: where every `§` is
/// followed by a known formatting code and the text holds no ESC, deleting
/// every escape sequence `ESC [` digits `m` from the ANSI conversion gives
/// the stripped text.
pub proof fn lemma_color_and_plain_show_same_text(s: Seq<char>)
    requires
        codes_known(s),
        !s.contains('\x1b'),
    ensures
        delete_sgr(mc_color_to_ansi_spec(s)) == strip_spec(s),
{
    let reset = "\x1b[0m"@;
    lemma_ansi_for_is_sgr('r');
    assert(ansi_for('r') == Some(reset));
    if contains_seq(ansi_body(s), csi()) {
        lemma_delete_ansi_body(s, reset);
        lemma_delete_sgr_prefix(reset, Seq::<char>::empty());
        assert(reset + Seq::<char>::empty() =~= reset);
        assert(delete_sgr(Seq::<char>::empty()) =~= Seq::<char>::empty());
        assert(strip_spec(s) + Seq::<char>::empty() =~= strip_spec(s));
    } else {
        lemma_delete_ansi_body(s, Seq::<char>::empty());
        assert(ansi_body(s) + Seq::<char>::empty() =~= ansi_body(s));
        assert(strip_spec(s) + Seq::<char>::empty() =~= strip_spec(s));
    }
}

/// The colour codes `0`-`f`, in the order of the colours they name.
pub open spec fn colour_code_chars() -> Seq<char> {
    seq!['0', '1', '2', '3', '4', '5', '6', '7', '8', '9', 'a', 'b', 'c', 'd', 'e', 'f']
}

/// The format codes: obfuscated, bold, strikethrough, underline, italic,
/// reset.
pub open spec fn format_code_chars() -> Seq<char> {
    seq!['k', 'l', 'm', 'n', 'o', 'r']
}

/// A lower-case ASCII letter in upper case; any other character itself.
pub open spec fn ascii_upper(c: char) -> char {
    if 'a' <= c && c <= 'z' {
        ((c as int) - 32) as char
    } else {
        c
    }
}

/// The ANSI colour number of colour code `k`: a Minecraft code holds blue,
/// green, red and brightness in its four bits, an ANSI colour holds red,
/// green and blue in its last digit, and bright colours count from 90
/// where dark ones count from 30.
pub open spec fn ansi_colour_digit(k: int) -> nat {
    ((k / 4) % 2 + 2 * ((k / 2) % 2) + 4 * (k % 2)) as nat
}

/// The escape sequence that sets the colour of code `k`.
pub open spec fn colour_sequence(k: int) -> Seq<char> {
    csi() + seq![
        if k >= 8 {
            '9'
        } else {
            '3'
        },
        digit_char(ansi_colour_digit(k)),
        'm',
    ]
}

/// Every colour and format code has an escape sequence, and the same one in
/// either case.
pub proof fn lemma_codes_known_in_either_case(c: char)
    requires
        colour_code_chars().contains(c) || format_code_chars().contains(c),
    ensures
        ansi_for(c) is Some,
        ansi_for(ascii_upper(c)) == ansi_for(c),
{
    let k = choose|k: int|
        0 <= k < colour_code_chars().len() && colour_code_chars()[k] == c || 0 <= k
            < format_code_chars().len() && format_code_chars()[k] == c;
    assert(ascii_upper('a') == 'A');
    assert(ascii_upper('b') == 'B');
    assert(ascii_upper('c') == 'C');
    assert(ascii_upper('d') == 'D');
    assert(ascii_upper('e') == 'E');
    assert(ascii_upper('f') == 'F');
    assert(ascii_upper('k') == 'K');
    assert(ascii_upper('l') == 'L');
    assert(ascii_upper('m') == 'M');
    assert(ascii_upper('n') == 'N');
    assert(ascii_upper('o') == 'O');
    assert(ascii_upper('r') == 'R');
}

/// Colour code `k` sets ANSI colour 30 + its red, green and blue bits for
/// the dark colours `0`-`7` and 90 + them for the bright colours `8`-`f`.
pub proof fn lemma_colour_code_sequences(k: int)
    requires
        0 <= k < 16,
    ensures
        ansi_for(colour_code_chars()[k]) == Some(colour_sequence(k)),
{
    reveal_strlit("\x1b[30m");
    reveal_strlit("\x1b[34m");
    reveal_strlit("\x1b[32m");
    reveal_strlit("\x1b[36m");
    reveal_strlit("\x1b[31m");
    reveal_strlit("\x1b[35m");
    reveal_strlit("\x1b[33m");
    reveal_strlit("\x1b[37m");
    reveal_strlit("\x1b[90m");
    reveal_strlit("\x1b[94m");
    reveal_strlit("\x1b[92m");
    reveal_strlit("\x1b[96m");
    reveal_strlit("\x1b[91m");
    reveal_strlit("\x1b[95m");
    reveal_strlit("\x1b[93m");
    reveal_strlit("\x1b[97m");
    let s = colour_sequence(k);
    let a = ansi_for(colour_code_chars()[k]).unwrap();
    assert(s.len() == 5);
    assert(a.len() == 5);
    assert(s =~= a);
}

/// The format codes set the matching ANSI attribute: bold `l` is 1, italic
/// `o` is 3, underline `n` is 4, strikethrough `m` is 9, reset `r` is 0;
/// obfuscated `k` has no ANSI counterpart and gives nothing.
pub proof fn lemma_format_code_sequences()
    ensures
        ansi_for('l') == Some(csi() + seq!['1', 'm']),
        ansi_for('o') == Some(csi() + seq!['3', 'm']),
        ansi_for('n') == Some(csi() + seq!['4', 'm']),
        ansi_for('m') == Some(csi() + seq!['9', 'm']),
        ansi_for('r') == Some(csi() + seq!['0', 'm']),
        ansi_for('k') == Some(Seq::<char>::empty()),
{
    reveal_strlit("\x1b[1m");
    reveal_strlit("\x1b[3m");
    reveal_strlit("\x1b[4m");
    reveal_strlit("\x1b[9m");
    reveal_strlit("\x1b[0m");
    reveal_strlit("");
    assert("\x1b[1m"@ =~= csi() + seq!['1', 'm']);
    assert("\x1b[3m"@ =~= csi() + seq!['3', 'm']);
    assert("\x1b[4m"@ =~= csi() + seq!['4', 'm']);
    assert("\x1b[9m"@ =~= csi() + seq!['9', 'm']);
    assert("\x1b[0m"@ =~= csi() + seq!['0', 'm']);
    assert(""@ =~= Seq::<char>::empty());
}

/// A known code followed by text turns into its escape sequence followed by
/// the conversion of the text, so the conversion opens with that sequence.
pub proof fn lemma_code_opens_with_its_sequence(c: char, t: Seq<char>)
    requires
        ansi_for(c) is Some,
    ensures
        ansi_body(seq![section(), c] + t) == ansi_for(c).unwrap() + ansi_body(t),
        mc_color_to_ansi_spec(seq![section(), c] + t).take(ansi_for(c).unwrap().len() as int)
            == ansi_for(c).unwrap(),
{
    let s = seq![section(), c] + t;
    assert(s.skip(2) =~= t);
    let a = ansi_for(c).unwrap();
    let out = mc_color_to_ansi_spec(s);
    assert(out.take(a.len() as int) =~= a);
}

/// Where every code is known, the conversion leaves no `§` behind.
pub proof fn lemma_ansi_leaves_no_section(s: Seq<char>)
    requires
        codes_known(s),
    ensures
        !mc_color_to_ansi_spec(s).contains(section()),
{
    lemma_ansi_body_no_section(s);
    reveal_strlit("\x1b[0m");
    let body = ansi_body(s);
    let r = "\x1b[0m"@;
    if contains_seq(body, csi()) {
        assert forall|i: int| 0 <= i < (body + r).len() implies (body + r)[i] != section() by {
            if i >= body.len() {
                assert((body + r)[i] == r[i - body.len()]);
            } else {
                assert((body + r)[i] == body[i]);
            }
        }
    }
}

proof fn lemma_ansi_body_no_section(s: Seq<char>)
    requires
        codes_known(s),
    ensures
        !ansi_body(s).contains(section()),
    decreases s.len(),
{
    if s.len() > 0 {
        let off: int = if s[0] == section() {
            2
        } else {
            1
        };
        if s[0] == section() {
            assert(1 < s.len() && ansi_for(s[1]) is Some);
        }
        let rest = s.skip(off);
        assert(codes_known(rest)) by {
            assert forall|i: int|
                0 <= i < rest.len() && #[trigger] rest[i] == section() implies i + 1 < rest.len()
                && ansi_for(rest[i + 1]) is Some by {
                assert(rest[i] == s[i + off]);
                assert(s[i + off] == section());
                assert(rest[i + 1] == s[i + 1 + off]);
            }
        }
        lemma_ansi_body_no_section(rest);
        let head: Seq<char> = if s[0] == section() {
            ansi_for(s[1]).unwrap()
        } else {
            seq![s[0]]
        };
        if s[0] == section() {
            lemma_ansi_for_is_sgr(s[1]);
        }
        assert(!head.contains(section())) by {
            if head.len() > 0 && s[0] == section() {
                assert forall|i: int| 0 <= i < head.len() implies head[i] != section() by {
                    if 2 <= i < head.len() - 1 {
                        assert(is_digit(head[i]));
                    }
                }
            }
        }
        let out = ansi_body(s);
        assert(out =~= head + ansi_body(rest));
        assert forall|i: int| 0 <= i < out.len() implies out[i] != section() by {
            if i < head.len() {
                assert(out[i] == head[i]);
            } else {
                assert(out[i] == ansi_body(rest)[i - head.len()]);
            }
        }
    }
}

/// Text without ESC keeps every character when escape sequences are
/// deleted, and so does such text in front of other text.
pub proof fn lemma_delete_sgr_keeps_plain(p: Seq<char>, x: Seq<char>)
    requires
        !p.contains('\x1b'),
    ensures
        delete_sgr(p + x) == p + delete_sgr(x),
    decreases p.len(),
{
    if p.len() == 0 {
        assert(p + x =~= x);
    } else {
        assert(p[0] != '\x1b');
        assert(!p.skip(1).contains('\x1b')) by {
            if p.skip(1).contains('\x1b') {
                let k = choose|k: int| 0 <= k < p.skip(1).len() && p.skip(1)[k] == '\x1b';
                assert(p[k + 1] == '\x1b');
            }
        }
        lemma_delete_sgr_keeps_plain(p.skip(1), x);
        assert(p + x =~= seq![p[0]] + (p.skip(1) + x));
        lemma_delete_sgr_plain(p[0], p.skip(1) + x);
        assert(p =~= seq![p[0]] + p.skip(1));
    }
}

// ---------------------------------------------------------------------------
// Terminal colour support
// ---------------------------------------------------------------------------
/// Colours are used unless `NO_COLOR` is set or `TERM` is `dumb`.
pub open spec fn supports_ansi_color_spec(no_color_set: bool, term: Option<Seq<char>>) -> bool {
    !no_color_set && term != Some("dumb"@)
}

/// Decides from the environment whether the terminal gets ANSI colours:
/// `no_color_set` tells whether `NO_COLOR` is set, `term` is the value of
/// `TERM` where it is set and valid Unicode.
pub fn supports_ansi_color(no_color_set: bool, term: Option<&str>) -> (r: bool)
    ensures
        r == supports_ansi_color_spec(
            no_color_set,
            match term {
                Some(t) => Some(t@),
                None => None,
            },
        ),
{
    if no_color_set {
        return false;
    }
    match term {
        Some(t) => !str_eq(t, "dumb"),
        None => true,
    }
}

} // verus!
