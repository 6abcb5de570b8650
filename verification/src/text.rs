//! Character-level helpers shared by the protocol and output code:
//! decimal rendering and parsing of integers, substring search and
//! template substitution, all stated over `Seq<char>`.
use vstd::prelude::*;

verus! {

/// Appends one character to the end of a string (std's `String::push`).
/// Trusted: the new contents are the old contents followed by `c`.
#[verifier::external_body]
pub(crate) fn push_char(s: &mut String, c: char)
    ensures
        final(s)@ == old(s)@.push(c),
{
    s.push(c);
}

/// The characters of a string slice, in order.
pub fn chars_of(s: &str) -> (v: Vec<char>)
    ensures
        v@ == s@,
{
    let mut v: Vec<char> = Vec::new();
    for c in it: s.chars()
        invariant
            v@ == it.seq().take(it.index() as int),
            it.seq() == s@,
    {
        v.push(c);
    }
    v
}

/// A string holding exactly the given characters.
pub fn string_of_chars(v: &Vec<char>) -> (s: String)
    ensures
        s@ == v@,
{
    let mut s = String::new();
    let mut i: usize = 0;
    while i < v.len()
        invariant
            i <= v.len(),
            s@ == v@.take(i as int),
        decreases v.len() - i,
    {
        push_char(&mut s, v[i]);
        i = i + 1;
        assert(s@ =~= v@.take(i as int));
    }
    assert(v@.take(v.len() as int) =~= v@);
    s
}

// ---------------------------------------------------------------------------
// Decimal rendering
// ---------------------------------------------------------------------------
/// The ASCII digit for a value below ten.
pub open spec fn digit_char(d: nat) -> char {
    seq!['0', '1', '2', '3', '4', '5', '6', '7', '8', '9'][d as int]
}

/// The decimal representation of a natural number, most significant digit
/// first, without leading zeros.
pub open spec fn decimal(n: nat) -> Seq<char>
    decreases n,
{
    if n < 10 {
        seq![digit_char(n)]
    } else {
        decimal(n / 10).push(digit_char(n % 10))
    }
}

/// The decimal representation of an integer: a `-` before the magnitude of
/// a negative number.
pub open spec fn signed_decimal(i: int) -> Seq<char> {
    if i < 0 {
        seq!['-'] + decimal((-i) as nat)
    } else {
        decimal(i as nat)
    }
}

fn digit(d: u64) -> (c: char)
    requires
        d < 10,
    ensures
        c == digit_char(d as nat),
{
    if d == 0 {
        '0'
    } else if d == 1 {
        '1'
    } else if d == 2 {
        '2'
    } else if d == 3 {
        '3'
    } else if d == 4 {
        '4'
    } else if d == 5 {
        '5'
    } else if d == 6 {
        '6'
    } else if d == 7 {
        '7'
    } else if d == 8 {
        '8'
    } else {
        '9'
    }
}

/// Renders an unsigned integer in decimal.
pub fn u64_to_decimal(n: u64) -> (s: String)
    ensures
        s@ == decimal(n as nat),
    decreases n,
{
    if n < 10 {
        let mut s = String::new();
        push_char(&mut s, digit(n));
        assert(s@ =~= seq![digit_char(n as nat)]);
        s
    } else {
        let mut s = u64_to_decimal(n / 10);
        push_char(&mut s, digit(n % 10));
        s
    }
}

/// Renders a signed integer in decimal.
pub fn i64_to_decimal(n: i64) -> (s: String)
    ensures
        s@ == signed_decimal(n as int),
{
    if n < 0 {
        let m: u64 = (0i128 - (n as i128)) as u64;
        let mut s = String::new();
        push_char(&mut s, '-');
        let t = u64_to_decimal(m);
        s.append(t.as_str());
        assert(s@ =~= seq!['-'] + decimal((-(n as int)) as nat));
        s
    } else {
        u64_to_decimal(n as u64)
    }
}

// ---------------------------------------------------------------------------
// Decimal parsing
// ---------------------------------------------------------------------------
/// An ASCII decimal digit.
pub open spec fn is_digit(c: char) -> bool {
    '0' <= c && c <= '9'
}

/// The value of an ASCII digit.
pub open spec fn digit_value(c: char) -> int {
    c as int - 48
}

/// The digit for `d` reads back as `d`.
pub proof fn lemma_digit_char(d: nat)
    requires
        d < 10,
    ensures
        is_digit(digit_char(d)),
        digit_value(digit_char(d)) == d,
{
    let t = seq!['0', '1', '2', '3', '4', '5', '6', '7', '8', '9'];
    assert(t[0] == '0' && t[1] == '1' && t[2] == '2' && t[3] == '3' && t[4] == '4');
    assert(t[5] == '5' && t[6] == '6' && t[7] == '7' && t[8] == '8' && t[9] == '9');
}

/// Every character is an ASCII digit.
pub open spec fn all_digits(s: Seq<char>) -> bool {
    forall|i: int| 0 <= i < s.len() ==> #[trigger] is_digit(s[i])
}

/// The value of a string of digits read in base ten.
pub open spec fn digits_value(s: Seq<char>) -> int
    decreases s.len(),
{
    if s.len() == 0 {
        0
    } else {
        digits_value(s.drop_last()) * 10 + digit_value(s.last())
    }
}

/// What `str::parse::<u16>` gives: an optional `+` followed by at least one
/// digit, whose value fits in 16 bits.
pub open spec fn parse_u16_spec(s: Seq<char>) -> Option<u16> {
    let body = if s.len() > 0 && s[0] == '+' {
        s.skip(1)
    } else {
        s
    };
    if body.len() > 0 && all_digits(body) && digits_value(body) <= 65535 {
        Some(digits_value(body) as u16)
    } else {
        None
    }
}

proof fn lemma_digits_value_nonneg(s: Seq<char>)
    requires
        all_digits(s),
    ensures
        digits_value(s) >= 0,
    decreases s.len(),
{
    if s.len() > 0 {
        assert(is_digit(s[s.len() - 1]));
        assert(all_digits(s.drop_last()));
        lemma_digits_value_nonneg(s.drop_last());
    }
}

proof fn lemma_digits_value_grows(s: Seq<char>, k: int)
    requires
        all_digits(s),
        0 <= k <= s.len(),
    ensures
        digits_value(s.take(k)) <= digits_value(s),
    decreases s.len() - k,
{
    if k < s.len() {
        lemma_digits_value_grows(s, k + 1);
        let t = s.take(k + 1);
        assert(t.drop_last() =~= s.take(k));
        assert(is_digit(s[k]));
        assert(all_digits(s.take(k))) by {
            assert forall|i: int| 0 <= i < k implies #[trigger] is_digit(s.take(k)[i]) by {
                assert(s.take(k)[i] == s[i]);
            }
        }
        lemma_digits_value_nonneg(s.take(k));
    } else {
        assert(s.take(k) =~= s);
    }
}

/// Parses a decimal `u16` the way `str::parse::<u16>` does.
pub fn parse_u16(s: &str) -> (r: Option<u16>)
    ensures
        r == parse_u16_spec(s@),
{
    let v = chars_of(s);
    let start: usize = if v.len() > 0 && v[0] == '+' {
        1
    } else {
        0
    };
    let ghost body = if s@.len() > 0 && s@[0] == '+' {
        s@.skip(1)
    } else {
        s@
    };
    assert(body =~= v@.skip(start as int));
    if start >= v.len() {
        return None;
    }
    let mut acc: u32 = 0;
    let mut i: usize = start;
    while i < v.len()
        invariant
            v@ == s@,
            body == (if s@.len() > 0 && s@[0] == '+' {
                s@.skip(1)
            } else {
                s@
            }),
            start <= i <= v.len(),
            start < v.len(),
            body =~= v@.skip(start as int),
            all_digits(body.take(i - start)),
            acc as int == digits_value(body.take(i - start)),
            acc <= 65535,
        decreases v.len() - i,
    {
        let c = v[i];
        let ghost k: int = i - start;
        assert(body[k] == c);
        if !(c >= '0' && c <= '9') {
            assert(!all_digits(body)) by {
                assert(!is_digit(body[k]));
            }
            assert(parse_u16_spec(s@) == None::<u16>);
            return None;
        }
        let d: u32 = (c as u32) - 48;
        acc = acc * 10 + d;
        i = i + 1;
        assert(body.take(k + 1).drop_last() =~= body.take(k));
        assert(body.take(k + 1).last() == c);
        assert(all_digits(body.take(k + 1))) by {
            assert forall|j: int| 0 <= j < k + 1 implies #[trigger] is_digit(body.take(k + 1)[j]) by {
                if j < k {
                    assert(body.take(k + 1)[j] == body.take(k)[j]);
                }
            }
        }
        assert(digits_value(body.take(k + 1)) == digits_value(body.take(k)) * 10 + digit_value(c));
        if acc > 65535 {
            proof {
                if all_digits(body) {
                    lemma_digits_value_grows(body, k + 1);
                }
            }
            assert(parse_u16_spec(s@) == None::<u16>);
            return None;
        }
    }
    assert(body.take(v.len() - start) =~= body);
    Some(acc as u16)
}

/// The ways in which `str::parse::<i32>` can fail.
#[derive(Debug, Clone, Copy, PartialEq, Eq, Structural)]
pub enum IntErrorKind {
    Empty,
    InvalidDigit,
    PosOverflow,
    NegOverflow,
}

/// Reads the digits left to right, starting from `acc`; the first character
/// that is not a digit, or the first partial value outside `i32`, decides
/// the error.
pub open spec fn scan_i32(body: Seq<char>, acc: int, neg: bool) -> Result<i32, IntErrorKind>
    decreases body.len(),
{
    if body.len() == 0 {
        Ok(acc as i32)
    } else if !is_digit(body[0]) {
        Err(IntErrorKind::InvalidDigit)
    } else {
        let next = if neg {
            acc * 10 - digit_value(body[0])
        } else {
            acc * 10 + digit_value(body[0])
        };
        if next > i32::MAX {
            Err(IntErrorKind::PosOverflow)
        } else if next < i32::MIN {
            Err(IntErrorKind::NegOverflow)
        } else {
            scan_i32(body.skip(1), next, neg)
        }
    }
}

/// What `str::parse::<i32>` gives: an optional sign followed by digits.
pub open spec fn parse_i32_spec(s: Seq<char>) -> Result<i32, IntErrorKind> {
    if s.len() == 0 {
        Err(IntErrorKind::Empty)
    } else if s.len() == 1 && (s[0] == '+' || s[0] == '-') {
        Err(IntErrorKind::InvalidDigit)
    } else if s[0] == '+' {
        scan_i32(s.skip(1), 0, false)
    } else if s[0] == '-' {
        scan_i32(s.skip(1), 0, true)
    } else {
        scan_i32(s, 0, false)
    }
}

/// Parses a decimal `i32` the way `str::parse::<i32>` does, reporting the
/// kind of failure.
pub fn parse_i32(s: &str) -> (r: Result<i32, IntErrorKind>)
    ensures
        r == parse_i32_spec(s@),
{
    let v = chars_of(s);
    if v.len() == 0 {
        return Err(IntErrorKind::Empty);
    }
    if v.len() == 1 && (v[0] == '+' || v[0] == '-') {
        return Err(IntErrorKind::InvalidDigit);
    }
    let neg = v[0] == '-';
    let start: usize = if v[0] == '+' || v[0] == '-' {
        1
    } else {
        0
    };
    let ghost body = v@.skip(start as int);
    assert(parse_i32_spec(s@) == scan_i32(body, 0, neg)) by {
        if start == 0 {
            assert(body =~= v@);
        }
    }
    let mut acc: i64 = 0;
    let mut i: usize = start;
    while i < v.len()
        invariant
            start <= i <= v.len(),
            body =~= v@.skip(start as int),
            parse_i32_spec(s@) == scan_i32(body, 0, neg),
            i32::MIN <= acc <= i32::MAX,
            scan_i32(body, 0, neg) == scan_i32(v@.skip(i as int), acc as int, neg),
        decreases v.len() - i,
    {
        let c = v[i];
        let ghost rest = v@.skip(i as int);
        assert(rest[0] == c);
        assert(rest.len() > 0);
        if !(c >= '0' && c <= '9') {
            assert(scan_i32(rest, acc as int, neg) == Err::<i32, IntErrorKind>(
                IntErrorKind::InvalidDigit,
            ));
            return Err(IntErrorKind::InvalidDigit);
        }
        let d: i64 = (c as u32 - 48) as i64;
        assert(d as int == digit_value(rest[0]));
        let next: i64 = if neg {
            acc * 10 - d
        } else {
            acc * 10 + d
        };
        if next > 2147483647 {
            assert(scan_i32(rest, acc as int, neg) == Err::<i32, IntErrorKind>(
                IntErrorKind::PosOverflow,
            ));
            return Err(IntErrorKind::PosOverflow);
        }
        if next < -2147483648 {
            assert(scan_i32(rest, acc as int, neg) == Err::<i32, IntErrorKind>(
                IntErrorKind::NegOverflow,
            ));
            return Err(IntErrorKind::NegOverflow);
        }
        acc = next;
        i = i + 1;
        assert(rest.skip(1) =~= v@.skip(i as int));
    }
    assert(v@.skip(v.len() as int) =~= Seq::<char>::empty());
    Ok(acc as i32)
}

/// The message std gives for each kind of integer parse failure.
pub open spec fn int_error_text(k: IntErrorKind) -> Seq<char> {
    match k {
        IntErrorKind::Empty => "cannot parse integer from empty string"@,
        IntErrorKind::InvalidDigit => "invalid digit found in string"@,
        IntErrorKind::PosOverflow => "number too large to fit in target type"@,
        IntErrorKind::NegOverflow => "number too small to fit in target type"@,
    }
}

/// The message for an integer parse failure.
pub fn int_error_message(k: IntErrorKind) -> (r: String)
    ensures
        r@ == int_error_text(k),
{
    match k {
        IntErrorKind::Empty => String::from_str("cannot parse integer from empty string"),
        IntErrorKind::InvalidDigit => String::from_str("invalid digit found in string"),
        IntErrorKind::PosOverflow => String::from_str("number too large to fit in target type"),
        IntErrorKind::NegOverflow => String::from_str("number too small to fit in target type"),
    }
}

// ---------------------------------------------------------------------------
// Substrings and templates
// ---------------------------------------------------------------------------
/// `needle` occurs in `hay` starting at position `i`.
pub open spec fn occurs_at(hay: Seq<char>, needle: Seq<char>, i: int) -> bool {
    0 <= i && i + needle.len() <= hay.len() && hay.subrange(i, i + needle.len()) == needle
}

/// `needle` occurs somewhere in `hay`.
pub open spec fn contains_seq(hay: Seq<char>, needle: Seq<char>) -> bool {
    exists|i: int| occurs_at(hay, needle, i)
}

fn matches_at(hay: &Vec<char>, needle: &Vec<char>, i: usize) -> (b: bool)
    requires
        i + needle.len() <= hay.len(),
    ensures
        b == occurs_at(hay@, needle@, i as int),
{
    let mut j: usize = 0;
    while j < needle.len()
        invariant
            i + needle.len() <= hay.len(),
            j <= needle.len(),
            forall|k: int| 0 <= k < j ==> hay@[i + k] == needle@[k],
        decreases needle.len() - j,
    {
        if hay[i + j] != needle[j] {
            assert(hay@.subrange(i as int, i + needle.len())[j as int] != needle@[j as int]);
            return false;
        }
        j = j + 1;
    }
    assert(hay@.subrange(i as int, i + needle.len()) =~= needle@);
    true
}

/// Whether `needle` occurs in `hay`.
pub fn vec_contains(hay: &Vec<char>, needle: &Vec<char>) -> (b: bool)
    ensures
        b == contains_seq(hay@, needle@),
{
    if needle.len() == 0 {
        assert(hay@.subrange(0, 0) =~= needle@);
        assert(occurs_at(hay@, needle@, 0));
        return true;
    }
    if needle.len() > hay.len() {
        assert(forall|i: int| !occurs_at(hay@, needle@, i));
        return false;
    }
    let bound = hay.len() - needle.len() + 1;
    let mut i: usize = 0;
    while i < bound
        invariant
            bound == hay.len() - needle.len() + 1,
            i <= bound,
            forall|k: int| 0 <= k < i ==> !occurs_at(hay@, needle@, k),
        decreases bound - i,
    {
        if matches_at(hay, needle, i) {
            return true;
        }
        i = i + 1;
    }
    assert forall|k: int| !occurs_at(hay@, needle@, k) by {
        if 0 <= k < i {
        }
    }
    false
}

/// Whether `needle` occurs in `hay` (std's `str::contains` with a string
/// pattern).
pub fn str_contains(hay: &str, needle: &str) -> (b: bool)
    ensures
        b == contains_seq(hay@, needle@),
{
    let h = chars_of(hay);
    let n = chars_of(needle);
    vec_contains(&h, &n)
}

/// `s` with the first `n` non-overlapping occurrences of `pat`, found left
/// to right, replaced by `rep` (std's `str::replacen`, for a nonempty
/// pattern).
pub open spec fn replace_first_n(s: Seq<char>, pat: Seq<char>, rep: Seq<char>, n: nat) -> Seq<
    char,
>
    decreases s.len(),
{
    if pat.len() == 0 || s.len() == 0 || n == 0 {
        s
    } else if occurs_at(s, pat, 0) {
        rep + replace_first_n(s.skip(pat.len() as int), pat, rep, (n - 1) as nat)
    } else {
        seq![s[0]] + replace_first_n(s.skip(1), pat, rep, n)
    }
}

/// `s` with every non-overlapping occurrence of `pat`, found left to right,
/// replaced by `rep` (std's `str::replace`, for a nonempty pattern).
pub open spec fn replace_all(s: Seq<char>, pat: Seq<char>, rep: Seq<char>) -> Seq<char>
    decreases s.len(),
{
    if pat.len() == 0 || s.len() == 0 {
        s
    } else if occurs_at(s, pat, 0) {
        rep + replace_all(s.skip(pat.len() as int), pat, rep)
    } else {
        seq![s[0]] + replace_all(s.skip(1), pat, rep)
    }
}

proof fn lemma_occurs_shift(s: Seq<char>, pat: Seq<char>, i: int)
    requires
        0 <= i <= s.len(),
    ensures
        occurs_at(s.skip(i), pat, 0) == occurs_at(s, pat, i),
{
    if occurs_at(s, pat, i) {
        assert(s.skip(i).subrange(0, pat.len() as int) =~= s.subrange(i, i + pat.len()));
    }
    if occurs_at(s.skip(i), pat, 0) {
        assert(s.skip(i).subrange(0, pat.len() as int) =~= s.subrange(i, i + pat.len()));
    }
}

/// Replaces the first `n` occurrences of `pat` in `s` by `rep`.
pub fn replacen(s: &str, pat: &str, rep: &str, n: usize) -> (r: String)
    requires
        pat@.len() > 0,
    ensures
        r@ == replace_first_n(s@, pat@, rep@, n as nat),
{
    let v = chars_of(s);
    let p = chars_of(pat);
    let mut out = String::new();
    let mut i: usize = 0;
    let mut left: usize = n;
    assert(v@.skip(0) =~= v@);
    while i < v.len()
        invariant
            i <= v.len(),
            p@.len() > 0,
            left <= n,
            out@ + replace_first_n(v@.skip(i as int), p@, rep@, left as nat) == replace_first_n(
                v@,
                p@,
                rep@,
                n as nat,
            ),
        ensures
            i <= v.len(),
            left == 0 || i == v.len(),
            out@ + replace_first_n(v@.skip(i as int), p@, rep@, left as nat) == replace_first_n(
                v@,
                p@,
                rep@,
                n as nat,
            ),
        decreases v.len() - i,
    {
        let ghost rest = v@.skip(i as int);
        let ghost before = out@;
        if left == 0 {
            break;
        }
        let hit = if p.len() <= v.len() - i {
            matches_at(&v, &p, i)
        } else {
            false
        };
        proof {
            lemma_occurs_shift(v@, p@, i as int);
        }
        if hit {
            out.append(rep);
            i = i + p.len();
            left = left - 1;
            assert(rest.skip(p@.len() as int) =~= v@.skip(i as int));
            assert(replace_first_n(rest, p@, rep@, (left + 1) as nat) == rep@ + replace_first_n(
                v@.skip(i as int),
                p@,
                rep@,
                left as nat,
            ));
            assert(out@ + replace_first_n(v@.skip(i as int), p@, rep@, left as nat) =~= before
                + replace_first_n(rest, p@, rep@, (left + 1) as nat));
        } else {
            push_char(&mut out, v[i]);
            i = i + 1;
            assert(rest.skip(1) =~= v@.skip(i as int));
            assert(replace_first_n(rest, p@, rep@, left as nat) == seq![rest[0]]
                + replace_first_n(v@.skip(i as int), p@, rep@, left as nat));
            assert(out@ + replace_first_n(v@.skip(i as int), p@, rep@, left as nat) =~= before
                + replace_first_n(rest, p@, rep@, left as nat));
        }
    }
    let ghost tail = v@.skip(i as int);
    let t = if i < v.len() {
        let mut t = String::new();
        let mut j: usize = i;
        while j < v.len()
            invariant
                i <= j <= v.len(),
                t@ == v@.subrange(i as int, j as int),
            decreases v.len() - j,
        {
            push_char(&mut t, v[j]);
            j = j + 1;
            assert(t@ =~= v@.subrange(i as int, j as int));
        }
        t
    } else {
        String::new()
    };
    assert(t@ =~= tail);
    assert(replace_first_n(tail, p@, rep@, left as nat) == tail);
    out.append(t.as_str());
    out
}

/// Whether two string slices hold the same characters.
pub fn str_eq(a: &str, b: &str) -> (r: bool)
    ensures
        r == (a@ == b@),
{
    let x = chars_of(a);
    let y = chars_of(b);
    if x.len() != y.len() {
        return false;
    }
    let mut i: usize = 0;
    while i < x.len()
        invariant
            x@ == a@,
            y@ == b@,
            x.len() == y.len(),
            i <= x.len(),
            forall|k: int| 0 <= k < i ==> x@[k] == y@[k],
        decreases x.len() - i,
    {
        if x[i] != y[i] {
            assert(x@[i as int] != y@[i as int]);
            return false;
        }
        i = i + 1;
    }
    assert(x@ =~= y@);
    true
}

/// The position of the last occurrence of `c` in `s`.
pub open spec fn last_index_of(s: Seq<char>, c: char) -> Option<int>
    decreases s.len(),
{
    if s.len() == 0 {
        None
    } else if s.last() == c {
        Some(s.len() - 1)
    } else {
        last_index_of(s.drop_last(), c)
    }
}

proof fn lemma_last_index_of_none(s: Seq<char>, c: char)
    ensures
        last_index_of(s, c) is None <==> !s.contains(c),
        last_index_of(s, c) matches Some(k) ==> 0 <= k < s.len() && s[k] == c,
    decreases s.len(),
{
    if s.len() > 0 {
        lemma_last_index_of_none(s.drop_last(), c);
        if s.last() != c {
            if s.contains(c) {
                let k = choose|k: int| 0 <= k < s.len() && s[k] == c;
                assert(s.drop_last()[k] == c);
            }
            if s.drop_last().contains(c) {
                let k = choose|k: int| 0 <= k < s.drop_last().len() && s.drop_last()[k] == c;
                assert(s[k] == c);
            }
        } else {
            assert(s[s.len() - 1] == c);
        }
    }
}

/// Finds the last occurrence of `c` in `v`.
pub fn rfind_char(v: &Vec<char>, c: char) -> (r: Option<usize>)
    ensures
        r matches Some(k) ==> last_index_of(v@, c) == Some(k as int),
        r is None ==> last_index_of(v@, c) is None,
        r is None <==> !v@.contains(c),
        r matches Some(k) ==> k < v.len() && v@[k as int] == c,
{
    proof {
        lemma_last_index_of_none(v@, c);
    }
    let mut i: usize = v.len();
    assert(v@.take(v.len() as int) =~= v@);
    while i > 0
        invariant
            i <= v.len(),
            last_index_of(v@, c) == last_index_of(v@.take(i as int), c),
        decreases i,
    {
        let ghost t = v@.take(i as int);
        if v[i - 1] == c {
            assert(t.last() == c);
            return Some(i - 1);
        }
        i = i - 1;
        assert(t.drop_last() =~= v@.take(i as int));
    }
    assert(v@.take(0) =~= Seq::<char>::empty());
    None
}

/// The pieces of `s` between occurrences of `sep`, in order (std's
/// `str::split` with a character): n occurrences give n + 1 pieces, empty
/// ones included.
pub open spec fn split_char(s: Seq<char>, sep: char) -> Seq<Seq<char>>
    decreases s.len(),
{
    match last_index_of(s, sep) {
        None => seq![s],
        Some(k) => {
            if 0 <= k < s.len() {
                split_char(s.take(k), sep).push(s.skip(k + 1))
            } else {
                seq![s]
            }
        },
    }
}

proof fn lemma_last_index_in_range(s: Seq<char>, c: char)
    ensures
        last_index_of(s, c) matches Some(k) ==> 0 <= k < s.len() && s[k] == c,
    decreases s.len(),
{
    if s.len() > 0 && s.last() != c {
        lemma_last_index_in_range(s.drop_last(), c);
    }
}

proof fn lemma_split_step(s: Seq<char>, sep: char, i: int)
    requires
        0 <= i < s.len(),
    ensures
        s[i] == sep ==> split_char(s.take(i + 1), sep) == split_char(s.take(i), sep).push(
            Seq::<char>::empty(),
        ),
        s[i] != sep ==> ({
            let before = split_char(s.take(i), sep);
            let after = split_char(s.take(i + 1), sep);
            &&& before.len() > 0
            &&& after == before.update(before.len() - 1, before.last().push(s[i]))
        }),
{
    let t = s.take(i + 1);
    let u = s.take(i);
    assert(t.drop_last() =~= u);
    assert(t.last() == s[i]);
    lemma_last_index_in_range(u, sep);
    if s[i] == sep {
        assert(last_index_of(t, sep) == Some(i));
        assert(t.take(i) =~= u);
        assert(t.skip(i + 1) =~= Seq::<char>::empty());
    } else {
        assert(last_index_of(t, sep) == last_index_of(u, sep));
        match last_index_of(u, sep) {
            None => {
                assert(t =~= u.push(s[i]));
            },
            Some(k) => {
                assert(t.take(k) =~= u.take(k));
                assert(t.skip(k + 1) =~= u.skip(k + 1).push(s[i]));
            },
        }
    }
}

/// Splits `s` at every `sep`.
pub fn split_on(s: &str, sep: char) -> (r: Vec<String>)
    ensures
        r.deep_view() == split_char(s@, sep),
{
    let v = chars_of(s);
    let mut fields: Vec<String> = Vec::new();
    let mut cur = String::new();
    let mut i: usize = 0;
    assert(v@.take(0) =~= Seq::<char>::empty());
    assert(split_char(Seq::<char>::empty(), sep) =~= seq![Seq::<char>::empty()]);
    while i < v.len()
        invariant
            v@ == s@,
            i <= v.len(),
            split_char(v@.take(i as int), sep) =~= fields.deep_view().push(cur@),
        decreases v.len() - i,
    {
        proof {
            lemma_split_step(v@, sep, i as int);
        }
        let c = v[i];
        if c == sep {
            let done = cur;
            fields.push(done);
            cur = String::new();
        } else {
            push_char(&mut cur, c);
        }
        i = i + 1;
    }
    fields.push(cur);
    assert(v@.take(v.len() as int) =~= v@);
    fields
}

/// `s` without the `c` characters at its end (std's `trim_end_matches`
/// with a character).
pub open spec fn trim_end_char(s: Seq<char>, c: char) -> Seq<char>
    decreases s.len(),
{
    if s.len() > 0 && s.last() == c {
        trim_end_char(s.drop_last(), c)
    } else {
        s
    }
}

/// Removes the `c` characters at the end of `s`.
pub fn trim_end(s: &str, c: char) -> (r: String)
    ensures
        r@ == trim_end_char(s@, c),
{
    let v = chars_of(s);
    let mut n: usize = v.len();
    assert(v@.take(n as int) =~= v@);
    while n > 0 && v[n - 1] == c
        invariant
            v@ == s@,
            n <= v.len(),
            trim_end_char(v@.take(n as int), c) == trim_end_char(s@, c),
        decreases n,
    {
        assert(v@.take(n as int).drop_last() =~= v@.take(n - 1));
        n = n - 1;
    }
    let mut r = String::new();
    let mut i: usize = 0;
    while i < n
        invariant
            n <= v.len(),
            i <= n,
            r@ == v@.take(i as int),
        decreases n - i,
    {
        push_char(&mut r, v[i]);
        i = i + 1;
        assert(r@ =~= v@.take(i as int));
    }
    r
}

} // verus!
