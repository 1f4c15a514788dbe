//! The volume control of the menu.
//!
//! The menu shows the current volume as a label of the form `Volume: <n>%`, and that label is
//! the only place where the level is kept: a press of the `+` or `-` button reads the level back
//! out of the label, moves it by one step and writes a new label.
use vstd::prelude::*;

verus! {

/// What a volume button does when pressed.
#[derive(Clone, Copy, Debug, PartialEq, Eq, Structural)]
pub enum VolumeAction {
    Up,
    Down,
}

/// The level the label shows before any button was pressed.
pub const INITIAL_VOLUME: i32 = 100;

/// The step by which one press moves the level, in percent.
pub const VOLUME_STEP: i32 = 20;

/// The highest level a press of `+` reaches.
pub const MAX_VOLUME: i32 = 100;

/// The lowest level a press of `-` reaches.
pub const MIN_VOLUME: i32 = 0;

// ---------------------------------------------------------------------------------------------
// The model of the label
// ---------------------------------------------------------------------------------------------

/// The text in front of the number in the label.
pub open spec fn volume_prefix() -> Seq<char> {
    seq!['V', 'o', 'l', 'u', 'm', 'e', ':', ' ']
}

/// The text behind the number in the label.
pub open spec fn percent_sign() -> Seq<char> {
    seq!['%']
}

/// `s` with every occurrence of `pat` taken out, scanning from the left and taking the
/// occurrences that do not overlap, as `str::replace(pat, "")` does.
pub open spec fn remove_all(s: Seq<char>, pat: Seq<char>) -> Seq<char>
    recommends
        pat.len() > 0,
    decreases s.len(),
{
    if s.len() == 0 {
        s
    } else if 0 < pat.len() <= s.len() && s.subrange(0, pat.len() as int) == pat {
        remove_all(s.subrange(pat.len() as int, s.len() as int), pat)
    } else {
        seq![s[0]] + remove_all(s.drop_first(), pat)
    }
}

/// The characters with the Unicode property `White_Space`, those for which
/// `char::is_whitespace` holds.
pub open spec fn is_whitespace(c: char) -> bool {
    let u = c as u32;
    ||| 0x9 <= u <= 0xd
    ||| u == 0x20
    ||| u == 0x85
    ||| u == 0xa0
    ||| u == 0x1680
    ||| 0x2000 <= u <= 0x200a
    ||| u == 0x2028
    ||| u == 0x2029
    ||| u == 0x202f
    ||| u == 0x205f
    ||| u == 0x3000
}

/// `s` without its leading white space.
pub open spec fn trim_start(s: Seq<char>) -> Seq<char>
    decreases s.len(),
{
    if s.len() > 0 && is_whitespace(s[0]) {
        trim_start(s.drop_first())
    } else {
        s
    }
}

/// `s` without its trailing white space.
pub open spec fn trim_end(s: Seq<char>) -> Seq<char>
    decreases s.len(),
{
    if s.len() > 0 && is_whitespace(s.last()) {
        trim_end(s.drop_last())
    } else {
        s
    }
}

/// `s` without white space at either end, as `str::trim` gives it.
pub open spec fn trim(s: Seq<char>) -> Seq<char> {
    trim_end(trim_start(s))
}

/// An ASCII decimal digit.
pub open spec fn is_digit(c: char) -> bool {
    '0' <= c <= '9'
}

/// The value of a decimal digit.
pub open spec fn digit_value(c: char) -> int {
    c as int - '0' as int
}

/// Every character of `s` is a decimal digit.
pub open spec fn all_digits(s: Seq<char>) -> bool {
    forall|i: int| 0 <= i < s.len() ==> is_digit(#[trigger] s[i])
}

/// The number that the decimal digits `s` write, most significant first.
pub open spec fn digits_value(s: Seq<char>) -> int
    decreases s.len(),
{
    if s.len() == 0 {
        0
    } else {
        digits_value(s.drop_last()) * 10 + digit_value(s.last())
    }
}

/// What `s.parse::<i32>()` gives: an optional sign (`+` or `-`) followed by at least one
/// decimal digit, and a value that fits in an `i32`.
pub open spec fn parse_i32(s: Seq<char>) -> Option<i32> {
    if s.len() == 0 {
        None
    } else {
        let body = if s[0] == '+' || s[0] == '-' {
            s.drop_first()
        } else {
            s
        };
        let value = if s[0] == '-' {
            -digits_value(body)
        } else {
            digits_value(body)
        };
        if body.len() == 0 || !all_digits(body) {
            None
        } else if i32::MIN <= value <= i32::MAX {
            Some(value as i32)
        } else {
            None
        }
    }
}

/// The text that is left of a label once the prefix and the percent sign are taken out and the
/// white space around it is trimmed: the text that is parsed as the level.
pub open spec fn volume_digits(text: Seq<char>) -> Seq<char> {
    trim(remove_all(remove_all(text, volume_prefix()), percent_sign()))
}

/// The level that a label shows, if it shows one.
pub open spec fn read_volume(text: Seq<char>) -> Option<i32> {
    parse_i32(volume_digits(text))
}

/// The character of the decimal digit `d`.
pub open spec fn digit_char(d: int) -> char {
    (d + '0' as int) as char
}

/// The decimal digits of `n`, most significant first and without leading zeros.
pub open spec fn natural_digits(n: nat) -> Seq<char>
    decreases n,
{
    if n < 10 {
        seq![digit_char(n as int)]
    } else {
        natural_digits(n / 10) + seq![digit_char((n % 10) as int)]
    }
}

/// `n` written in decimal as `Display` writes an integer: a minus sign for a negative
/// number, then the digits of its magnitude.
pub open spec fn decimal(n: int) -> Seq<char> {
    if n < 0 {
        seq!['-'] + natural_digits((-n) as nat)
    } else {
        natural_digits(n as nat)
    }
}

/// The label that shows the level `level`: `Volume: <level>%`.
pub open spec fn volume_text(level: int) -> Seq<char> {
    volume_prefix() + decimal(level) + percent_sign()
}

/// The level after one press of a volume button: `+` adds a step and stops at full volume,
/// `-` takes a step off and stops at silence.
pub open spec fn stepped(level: int, action: VolumeAction) -> int {
    match action {
        VolumeAction::Up => if level + VOLUME_STEP < MAX_VOLUME {
            level + VOLUME_STEP
        } else {
            MAX_VOLUME as int
        },
        VolumeAction::Down => if level - VOLUME_STEP > MIN_VOLUME {
            level - VOLUME_STEP
        } else {
            MIN_VOLUME as int
        },
    }
}

/// The step from `level` can be taken in `i32` arithmetic; outside of it the sum or the
/// difference of the press overflows.
pub open spec fn step_fits(level: int, action: VolumeAction) -> bool {
    match action {
        VolumeAction::Up => level + VOLUME_STEP <= i32::MAX,
        VolumeAction::Down => level - VOLUME_STEP >= i32::MIN,
    }
}

// ---------------------------------------------------------------------------------------------
// Executable code
// ---------------------------------------------------------------------------------------------

/// The level after one press of a volume button.
pub fn step_volume(level: i32, action: VolumeAction) -> (r: i32)
    requires
        step_fits(level as int, action),
    ensures
        r == stepped(level as int, action),
{
    match action {
        VolumeAction::Up => {
            let raised = level + VOLUME_STEP;
            if raised < MAX_VOLUME {
                raised
            } else {
                MAX_VOLUME
            }
        },
        VolumeAction::Down => {
            let lowered = level - VOLUME_STEP;
            if lowered > MIN_VOLUME {
                lowered
            } else {
                MIN_VOLUME
            }
        },
    }
}


/// The characters of `text`, in order.
fn chars_of(text: &str) -> (r: Vec<char>)
    ensures
        r@ == text@,
{
    let mut out: Vec<char> = Vec::new();
    for c in it: text.chars()
        invariant
            out@ == it.seq().take(it.index() as int),
    {
        out.push(c);
    }
    out
}


/// Whether `pat` stands in `s` at position `i`.
fn matches_at(s: &Vec<char>, i: usize, pat: &Vec<char>) -> (r: bool)
    requires
        i <= s.len(),
    ensures
        r == (i + pat.len() <= s.len() && s@.subrange(i as int, i + pat.len()) == pat@),
{
    if pat.len() > s.len() - i {
        return false;
    }
    let mut k: usize = 0;
    while k < pat.len()
        invariant
            k <= pat.len(),
            i + pat.len() <= s.len(),
            forall|j: int| 0 <= j < k ==> s@[i + j] == pat@[j],
        decreases pat.len() - k,
    {
        if s[i + k] != pat[k] {
            assert(s@.subrange(i as int, i + pat.len())[k as int] != pat@[k as int]);
            return false;
        }
        k = k + 1;
    }
    assert(s@.subrange(i as int, i + pat.len()) =~= pat@);
    true
}

/// `s` with every occurrence of `pat` taken out, as `remove_all` describes.
fn remove_all_chars(s: &Vec<char>, pat: &Vec<char>) -> (r: Vec<char>)
    requires
        pat.len() > 0,
    ensures
        r@ == remove_all(s@, pat@),
{
    let n = s.len();
    let mut out: Vec<char> = Vec::new();
    let mut i: usize = 0;
    assert(s@.subrange(0, n as int) =~= s@);
    while i < n
        invariant
            n == s.len(),
            i <= n,
            pat.len() > 0,
            remove_all(s@, pat@) == out@ + remove_all(s@.subrange(i as int, n as int), pat@),
        decreases n - i,
    {
        let ghost rest = s@.subrange(i as int, n as int);
        if matches_at(s, i, pat) {
            assert(rest.subrange(0, pat.len() as int) =~= s@.subrange(i as int, i + pat.len()));
            assert(rest.subrange(pat.len() as int, rest.len() as int) =~= s@.subrange(
                i + pat.len(),
                n as int,
            ));
            i = i + pat.len();
        } else {
            proof {
                if pat@.len() <= rest.len() {
                    assert(rest.subrange(0, pat@.len() as int) =~= s@.subrange(
                        i as int,
                        i + pat@.len(),
                    ));
                }
            }
            assert(rest.drop_first() =~= s@.subrange(i + 1, n as int));
            let ghost before = out@;
            out.push(s[i]);
            assert(out@ + remove_all(s@.subrange(i + 1, n as int), pat@) =~= before + (seq![
                rest[0],
            ] + remove_all(rest.drop_first(), pat@)));
            i = i + 1;
        }
    }
    assert(s@.subrange(n as int, n as int) =~= Seq::<char>::empty());
    out
}


/// Whether `c` is white space, as `char::is_whitespace` decides it.
fn is_whitespace_char(c: char) -> (r: bool)
    ensures
        r == is_whitespace(c),
{
    let u = c as u32;
    (0x9 <= u && u <= 0xd) || u == 0x20 || u == 0x85 || u == 0xa0 || u == 0x1680 || (0x2000 <= u
        && u <= 0x200a) || u == 0x2028 || u == 0x2029 || u == 0x202f || u == 0x205f || u == 0x3000
}

/// `s` without white space at either end.
fn trim_chars(s: &Vec<char>) -> (r: Vec<char>)
    ensures
        r@ == trim(s@),
{
    let n = s.len();
    let mut a: usize = 0;
    assert(s@.subrange(0, n as int) =~= s@);
    while a < n
        invariant
            n == s.len(),
            a <= n,
            trim_start(s@) == trim_start(s@.subrange(a as int, n as int)),
        ensures
            a <= n,
            trim_start(s@) == s@.subrange(a as int, n as int),
        decreases n - a,
    {
        if !is_whitespace_char(s[a]) {
            break;
        }
        assert(s@.subrange(a as int, n as int).drop_first() =~= s@.subrange(a + 1, n as int));
        a = a + 1;
    }
    let mut b: usize = n;
    while b > a
        invariant
            n == s.len(),
            a <= b <= n,
            trim_start(s@) == s@.subrange(a as int, n as int),
            trim_end(s@.subrange(a as int, n as int)) == trim_end(s@.subrange(a as int, b as int)),
        ensures
            a <= b <= n,
            trim(s@) == s@.subrange(a as int, b as int),
        decreases b - a,
    {
        if !is_whitespace_char(s[b - 1]) {
            break;
        }
        assert(s@.subrange(a as int, b as int).drop_last() =~= s@.subrange(a as int, b - 1));
        b = b - 1;
    }
    let mut out: Vec<char> = Vec::new();
    let mut k: usize = a;
    while k < b
        invariant
            n == s.len(),
            a <= k <= b <= n,
            out@ =~= s@.subrange(a as int, k as int),
        decreases b - k,
    {
        out.push(s[k]);
        k = k + 1;
    }
    out
}


/// The value of decimal digits is never negative.
proof fn lemma_digits_value_nonneg(s: Seq<char>)
    requires
        all_digits(s),
    ensures
        digits_value(s) >= 0,
    decreases s.len(),
{
    if s.len() > 0 {
        assert(all_digits(s.drop_last())) by {
            assert forall|i: int| 0 <= i < s.drop_last().len() implies is_digit(
                #[trigger] s.drop_last()[i],
            ) by {
                assert(s.drop_last()[i] == s[i]);
            }
        }
        lemma_digits_value_nonneg(s.drop_last());
        assert(is_digit(s[s.len() - 1]));
    }
}

/// A bound above every magnitude that fits in an `i32`.
const MAGNITUDE_CAP: u64 = 0x8000_0001;

/// The number `s` writes, if it is an `i32` as `str::parse::<i32>` reads it.
fn parse_i32_chars(s: &Vec<char>) -> (r: Option<i32>)
    ensures
        r == parse_i32(s@),
{
    let n = s.len();
    if n == 0 {
        return None;
    }
    let first = s[0];
    let signed = first == '+' || first == '-';
    let negative = first == '-';
    let start: usize = if signed {
        1
    } else {
        0
    };
    let ghost body = s@.subrange(start as int, n as int);
    assert(body =~= if signed {
        s@.drop_first()
    } else {
        s@
    });
    if start == n {
        return None;
    }
    let mut magnitude: u64 = 0;
    let mut k: usize = start;
    assert(s@.subrange(start as int, start as int) =~= Seq::<char>::empty());
    while k < n
        invariant
            n == s.len(),
            start < n,
            start <= k <= n,
            body == s@.subrange(start as int, n as int),
            body == (if s@[0] == '+' || s@[0] == '-' {
                s@.drop_first()
            } else {
                s@
            }),
            all_digits(s@.subrange(start as int, k as int)),
            magnitude == if digits_value(s@.subrange(start as int, k as int))
                < MAGNITUDE_CAP as int {
                digits_value(s@.subrange(start as int, k as int))
            } else {
                MAGNITUDE_CAP as int
            },
        decreases n - k,
    {
        let c = s[k];
        if c < '0' || c > '9' {
            assert(body[k - start] == c);
            assert(!all_digits(body));
            return None;
        }
        let ghost prefix = s@.subrange(start as int, k as int);
        let ghost longer = s@.subrange(start as int, k + 1);
        assert(longer.drop_last() =~= prefix);
        assert(longer.last() == c);
        assert(all_digits(longer)) by {
            assert forall|i: int| 0 <= i < longer.len() implies is_digit(#[trigger] longer[i]) by {
                if i < prefix.len() {
                    assert(longer[i] == prefix[i]);
                }
            }
        }
        proof {
            lemma_digits_value_nonneg(prefix);
        }
        let digit = (c as u32 - '0' as u32) as u64;
        let next = magnitude * 10 + digit;
        magnitude = if next < MAGNITUDE_CAP {
            next
        } else {
            MAGNITUDE_CAP
        };
        k = k + 1;
    }
    assert(s@.subrange(start as int, n as int) == body);
    proof {
        lemma_digits_value_nonneg(body);
    }
    if negative {
        if magnitude <= 0x8000_0000 {
            let m = magnitude as i64;
            Some((-m) as i32)
        } else {
            None
        }
    } else {
        if magnitude <= 0x7fff_ffff {
            Some(magnitude as i32)
        } else {
            None
        }
    }
}


/// The one-character text of the decimal digit `d`.
fn digit_text(d: u32) -> (r: &'static str)
    requires
        d < 10,
    ensures
        r@ == seq![digit_char(d as int)],
{
    match d {
        0 => {
            proof {
                reveal_strlit("0");
            }
            assert("0"@ =~= seq![digit_char(0)]);
            "0"
        },
        1 => {
            proof {
                reveal_strlit("1");
            }
            assert("1"@ =~= seq![digit_char(1)]);
            "1"
        },
        2 => {
            proof {
                reveal_strlit("2");
            }
            assert("2"@ =~= seq![digit_char(2)]);
            "2"
        },
        3 => {
            proof {
                reveal_strlit("3");
            }
            assert("3"@ =~= seq![digit_char(3)]);
            "3"
        },
        4 => {
            proof {
                reveal_strlit("4");
            }
            assert("4"@ =~= seq![digit_char(4)]);
            "4"
        },
        5 => {
            proof {
                reveal_strlit("5");
            }
            assert("5"@ =~= seq![digit_char(5)]);
            "5"
        },
        6 => {
            proof {
                reveal_strlit("6");
            }
            assert("6"@ =~= seq![digit_char(6)]);
            "6"
        },
        7 => {
            proof {
                reveal_strlit("7");
            }
            assert("7"@ =~= seq![digit_char(7)]);
            "7"
        },
        8 => {
            proof {
                reveal_strlit("8");
            }
            assert("8"@ =~= seq![digit_char(8)]);
            "8"
        },
        _ => {
            proof {
                reveal_strlit("9");
            }
            assert("9"@ =~= seq![digit_char(9)]);
            "9"
        },
    }
}

/// Appends the decimal digits of `n` to `out`.
fn push_natural_digits(out: &mut String, n: u32)
    ensures
        final(out)@ == old(out)@ + natural_digits(n as nat),
    decreases n,
{
    if n >= 10 {
        push_natural_digits(out, n / 10);
    }
    out.append(digit_text(n % 10));
    assert(final(out)@ =~= old(out)@ + natural_digits(n as nat));
}

/// The label that shows the level `level`, as `format!("Volume: {}%", level)` writes it.
pub fn volume_label(level: i32) -> (r: String)
    ensures
        r@ == volume_text(level as int),
{
    let mut out = String::new();
    proof {
        reveal_strlit("Volume: ");
        reveal_strlit("-");
        reveal_strlit("%");
    }
    assert("Volume: "@ =~= volume_prefix());
    out.append("Volume: ");
    let magnitude: u32 = if level < 0 {
        out.append("-");
        (-(level as i64)) as u32
    } else {
        level as u32
    };
    push_natural_digits(&mut out, magnitude);
    out.append("%");
    assert(out@ =~= volume_text(level as int));
    out
}

/// The level that the label `text` shows, read as a press of a volume button reads it: the
/// prefix `Volume: ` and every `%` are taken out, white space around the rest is trimmed and
/// the rest is parsed as an `i32`.
pub fn read_volume_level(text: &str) -> (r: Option<i32>)
    ensures
        r == read_volume(text@),
{
    let chars = chars_of(text);
    let prefix: Vec<char> = vec!['V', 'o', 'l', 'u', 'm', 'e', ':', ' '];
    assert(prefix@ =~= volume_prefix());
    let without_prefix = remove_all_chars(&chars, &prefix);
    let percent: Vec<char> = vec!['%'];
    assert(percent@ =~= percent_sign());
    let without_percent = remove_all_chars(&without_prefix, &percent);
    let digits = trim_chars(&without_percent);
    parse_i32_chars(&digits)
}


/// What one press of a volume button does to the label `text`: the new level and the new
/// label, or `None` where the label shows no level, in which case nothing changes.
pub fn press_volume_button(text: &str, action: VolumeAction) -> (r: Option<(i32, String)>)
    requires
        read_volume(text@) matches Some(level) ==> step_fits(level as int, action),
    ensures
        match read_volume(text@) {
            None => r is None,
            Some(level) => r matches Some((new_level, label)) && new_level == stepped(
                level as int,
                action,
            ) && label@ == volume_text(new_level as int),
        },
{
    match read_volume_level(text) {
        None => None,
        Some(level) => {
            let new_level = step_volume(level, action);
            Some((new_level, volume_label(new_level)))
        },
    }
}

// ---------------------------------------------------------------------------------------------
// Laws
// ---------------------------------------------------------------------------------------------

proof fn lemma_digit_char(d: int)
    requires
        0 <= d <= 9,
    ensures
        is_digit(digit_char(d)),
        digit_value(digit_char(d)) == d,
        !is_whitespace(digit_char(d)),
        digit_char(d) != 'V',
        digit_char(d) != '%',
        digit_char(d) != '+',
        digit_char(d) != '-',
{
}

proof fn lemma_natural_digits(n: nat)
    ensures
        natural_digits(n).len() > 0,
        all_digits(natural_digits(n)),
        digits_value(natural_digits(n)) == n,
    decreases n,
{
    let s = natural_digits(n);
    if n < 10 {
        lemma_digit_char(n as int);
        assert(s.drop_last() =~= Seq::<char>::empty());
        assert(digits_value(Seq::<char>::empty()) == 0);
        assert(s.last() == digit_char(n as int));
        assert(digits_value(s) == digits_value(s.drop_last()) * 10 + digit_value(s.last()));
    } else {
        lemma_natural_digits(n / 10);
        lemma_digit_char((n % 10) as int);
        let front = natural_digits(n / 10);
        assert(s.drop_last() =~= front);
        assert(s.last() == digit_char((n % 10) as int));
        assert(n == (n / 10) * 10 + n % 10);
        assert(digits_value(s) == digits_value(s.drop_last()) * 10 + digit_value(s.last()));
        assert(digits_value(front) == n / 10);
        assert forall|i: int| 0 <= i < s.len() implies is_digit(#[trigger] s[i]) by {
            if i < front.len() {
                assert(s[i] == front[i]);
            }
        }
    }
}

/// Taking out a pattern whose first character does not occur in `s` leaves `s` as it was.
proof fn lemma_remove_absent(s: Seq<char>, pat: Seq<char>)
    requires
        pat.len() > 0,
        forall|i: int| 0 <= i < s.len() ==> s[i] != pat[0],
    ensures
        remove_all(s, pat) == s,
    decreases s.len(),
{
    if s.len() > 0 {
        if pat.len() <= s.len() {
            assert(s.subrange(0, pat.len() as int)[0] != pat[0]);
        }
        lemma_remove_absent(s.drop_first(), pat);
        assert(seq![s[0]] + s.drop_first() =~= s);
    }
}

/// Taking the character `c` out of `a` followed by `c`, where `a` holds no `c`, gives `a`.
proof fn lemma_remove_trailing(a: Seq<char>, c: char)
    requires
        forall|i: int| 0 <= i < a.len() ==> a[i] != c,
    ensures
        remove_all(a + seq![c], seq![c]) == a,
    decreases a.len(),
{
    let s = a + seq![c];
    if a.len() == 0 {
        assert(s.subrange(0, 1) =~= seq![c]);
        assert(s.subrange(1, s.len() as int) =~= Seq::<char>::empty());
        assert(remove_all(Seq::<char>::empty(), seq![c]) == Seq::<char>::empty());
    } else {
        assert(s.subrange(0, 1)[0] != c);
        assert(s.drop_first() =~= a.drop_first() + seq![c]);
        lemma_remove_trailing(a.drop_first(), c);
        assert(seq![a[0]] + a.drop_first() =~= a);
    }
}

/// The decimal text of a number, what it is made of and what it reads back as.
proof fn lemma_decimal(n: int)
    requires
        i32::MIN <= n <= i32::MAX,
    ensures
        decimal(n).len() > 0,
        forall|i: int|
            0 <= i < decimal(n).len() ==> is_digit(#[trigger] decimal(n)[i]) || decimal(n)[i]
                == '-',
        is_digit(decimal(n).last()),
        parse_i32(decimal(n)) == Some(n as i32),
{
    if n < 0 {
        let m = (-n) as nat;
        lemma_natural_digits(m);
        let d = decimal(n);
        assert(d.drop_first() =~= natural_digits(m));
        assert(d.last() == natural_digits(m).last());
    } else {
        lemma_natural_digits(n as nat);
        lemma_digit_char(digit_value(decimal(n)[0]));
    }
}

/// Law: the label written for a level reads back as that level. The label is where the menu
/// keeps the volume, so what one press writes is what the next press starts from.
pub proof fn lemma_label_reads_back(level: i32)
    ensures
        read_volume(volume_text(level as int)) == Some(level),
{
    let d = decimal(level as int);
    lemma_decimal(level as int);
    let text = volume_text(level as int);
    let tail = d + percent_sign();
    // the prefix is taken out once, and nothing after it starts another prefix
    assert(text.subrange(0, volume_prefix().len() as int) =~= volume_prefix());
    assert(text.subrange(volume_prefix().len() as int, text.len() as int) =~= tail);
    assert forall|i: int| 0 <= i < tail.len() implies tail[i] != volume_prefix()[0] by {
        if i < d.len() {
            assert(tail[i] == d[i]);
        }
    }
    lemma_remove_absent(tail, volume_prefix());
    assert(remove_all(text, volume_prefix()) == tail);
    // the percent sign goes, and the number holds none
    assert forall|i: int| 0 <= i < d.len() implies d[i] != '%' by {
        assert(is_digit(d[i]) || d[i] == '-');
    }
    lemma_remove_trailing(d, '%');
    // nothing to trim
    assert(is_digit(d[0]) || d[0] == '-');
    assert(!is_whitespace(d[0]));
    assert(trim_start(d) == d);
    assert(!is_whitespace(d.last()));
    assert(trim_end(d) == d);
}


/// The label's text around a number `m` made of digits and minus signs is taken apart to `m`.
proof fn lemma_volume_digits_of(m: Seq<char>)
    requires
        m.len() > 0,
        forall|i: int| 0 <= i < m.len() ==> is_digit(#[trigger] m[i]) || m[i] == '-',
    ensures
        volume_digits(volume_prefix() + m + percent_sign()) == m,
{
    let text = volume_prefix() + m + percent_sign();
    let tail = m + percent_sign();
    assert(text.subrange(0, volume_prefix().len() as int) =~= volume_prefix());
    assert(text.subrange(volume_prefix().len() as int, text.len() as int) =~= tail);
    assert forall|i: int| 0 <= i < tail.len() implies tail[i] != volume_prefix()[0] by {
        if i < m.len() {
            assert(tail[i] == m[i]);
        }
    }
    lemma_remove_absent(tail, volume_prefix());
    assert(remove_all(text, volume_prefix()) == tail);
    assert forall|i: int| 0 <= i < m.len() implies m[i] != '%' by {
        assert(is_digit(m[i]) || m[i] == '-');
    }
    lemma_remove_trailing(m, '%');
    assert(is_digit(m[0]) || m[0] == '-');
    assert(trim_start(m) == m);
    assert(is_digit(m[m.len() - 1]) || m[m.len() - 1] == '-');
    assert(trim_end(m) == m);
}

/// Law: the value of a string of decimal digits grows digit by digit, most significant first:
/// the empty string is worth 0, and a digit `c` appended to `s` makes it ten times `s` plus
/// the digit.
pub proof fn lemma_digits_value_steps(s: Seq<char>, c: char)
    ensures
        digits_value(Seq::<char>::empty()) == 0,
        digits_value(s.push(c)) == digits_value(s) * 10 + (c as int - 48),
{
    assert(s.push(c).drop_last() =~= s);
}

/// The decimal digits of a natural number have no leading zero.
proof fn lemma_natural_digits_leading(n: nat)
    ensures
        natural_digits(n)[0] == '0' ==> n == 0,
    decreases n,
{
    if n >= 10 {
        lemma_natural_digits_leading(n / 10);
        lemma_natural_digits(n / 10);
        assert(natural_digits(n)[0] == natural_digits(n / 10)[0]);
    }
}

/// Law: the number in a label is written as `Display` writes an integer: for `n >= 0` the
/// decimal digits of `n`, at least one and without a leading zero, worth `n`; for `n < 0` a
/// minus sign followed by such digits of `-n`.
pub proof fn lemma_decimal_is_canonical(n: int)
    ensures
        n >= 0 ==> {
            let d = decimal(n);
            &&& d.len() >= 1
            &&& forall|i: int| 0 <= i < d.len() ==> '0' <= #[trigger] d[i] <= '9'
            &&& (d[0] == '0' ==> d.len() == 1)
            &&& digits_value(d) == n
        },
        n < 0 ==> {
            let d = decimal(n);
            &&& d.len() >= 2
            &&& d[0] == '-'
            &&& forall|i: int| 1 <= i < d.len() ==> '0' <= #[trigger] d[i] <= '9'
            &&& d[1] != '0'
            &&& digits_value(d.drop_first()) == -n
        },
{
    if n >= 0 {
        lemma_natural_digits(n as nat);
        lemma_natural_digits_leading(n as nat);
        let d = decimal(n);
        if d[0] == '0' {
            assert(n == 0);
            assert(d =~= seq![digit_char(0)]);
        }
        assert forall|i: int| 0 <= i < d.len() implies '0' <= #[trigger] d[i] <= '9' by {
            assert(is_digit(d[i]));
        }
    } else {
        let m = (-n) as nat;
        lemma_natural_digits(m);
        lemma_natural_digits_leading(m);
        let d = decimal(n);
        assert(d.drop_first() =~= natural_digits(m));
        assert forall|i: int| 1 <= i < d.len() implies '0' <= #[trigger] d[i] <= '9' by {
            assert(d[i] == natural_digits(m)[i - 1]);
            assert(is_digit(natural_digits(m)[i - 1]));
        }
        assert(d[1] == natural_digits(m)[0]);
    }
}

/// Law: a label is the text `Volume: `, then the number (as `lemma_decimal_is_canonical`
/// describes it), then `%`.
pub proof fn lemma_label_is_prefix_number_percent(n: int)
    ensures
        volume_text(n).len() >= 10,
        volume_text(n).subrange(0, 8) == seq!['V', 'o', 'l', 'u', 'm', 'e', ':', ' '],
        volume_text(n).last() == '%',
        volume_text(n).subrange(8, volume_text(n).len() - 1) == decimal(n),
{
    lemma_decimal_is_canonical(n);
    let t = volume_text(n);
    assert(t.subrange(0, 8) =~= seq!['V', 'o', 'l', 'u', 'm', 'e', ':', ' ']);
    assert(t.subrange(8, t.len() - 1) =~= decimal(n));
}

/// Law: parsing a non-empty string of decimal digits, with or without a sign, gives the value
/// the digits write (negated after a minus sign) where it fits in an `i32`, and nothing
/// otherwise.
pub proof fn lemma_parse_digits(s: Seq<char>)
    requires
        s.len() > 0,
        forall|i: int| 0 <= i < s.len() ==> '0' <= #[trigger] s[i] <= '9',
    ensures
        digits_value(s) >= 0,
        parse_i32(s) == (if digits_value(s) <= i32::MAX {
            Some(digits_value(s) as i32)
        } else {
            None
        }),
        parse_i32(seq!['+'] + s) == parse_i32(s),
        parse_i32(seq!['-'] + s) == (if -digits_value(s) >= i32::MIN {
            Some((-digits_value(s)) as i32)
        } else {
            None
        }),
{
    assert(all_digits(s)) by {
        assert forall|i: int| 0 <= i < s.len() implies is_digit(#[trigger] s[i]) by {
            assert('0' <= s[i] <= '9');
        }
    }
    lemma_digits_value_nonneg(s);
    assert((seq!['+'] + s).drop_first() =~= s);
    assert((seq!['-'] + s).drop_first() =~= s);
    assert('0' <= s[0] <= '9');
}

/// Law: parsing refuses the empty string, a lone sign, and any string with a character that
/// is neither a decimal digit nor a leading sign.
pub proof fn lemma_parse_rejects(s: Seq<char>, i: int)
    ensures
        parse_i32(Seq::<char>::empty()) is None,
        parse_i32(seq!['+']) is None,
        parse_i32(seq!['-']) is None,
        0 <= i < s.len() && !('0' <= s[i] <= '9') && !(i == 0 && (s[0] == '+' || s[0] == '-'))
            ==> parse_i32(s) is None,
{
    assert(seq!['+'].drop_first() =~= Seq::<char>::empty());
    assert(seq!['-'].drop_first() =~= Seq::<char>::empty());
    if 0 <= i < s.len() && !('0' <= s[i] <= '9') && !(i == 0 && (s[0] == '+' || s[0] == '-')) {
        if s[0] == '+' || s[0] == '-' {
            assert(s.drop_first()[i - 1] == s[i]);
            assert(!is_digit(s.drop_first()[i - 1]));
        } else {
            assert(!is_digit(s[i]));
        }
    }
}

/// Law: a label of the form `Volume: <digits>%`, or `Volume: -<digits>%`, reads as the value
/// the digits write (negated after the minus sign) where it fits in an `i32`; leading zeros
/// included.
pub proof fn lemma_read_number_label(d: Seq<char>)
    requires
        d.len() > 0,
        forall|i: int| 0 <= i < d.len() ==> '0' <= #[trigger] d[i] <= '9',
    ensures
        read_volume(seq!['V', 'o', 'l', 'u', 'm', 'e', ':', ' '] + d + seq!['%']) == (if digits_value(
            d,
        ) <= i32::MAX {
            Some(digits_value(d) as i32)
        } else {
            None
        }),
        read_volume(seq!['V', 'o', 'l', 'u', 'm', 'e', ':', ' '] + (seq!['-'] + d) + seq!['%'])
            == (if -digits_value(d) >= i32::MIN {
            Some((-digits_value(d)) as i32)
        } else {
            None
        }),
{
    lemma_parse_digits(d);
    assert(seq!['V', 'o', 'l', 'u', 'm', 'e', ':', ' '] =~= volume_prefix());
    assert(seq!['%'] =~= percent_sign());
    assert forall|i: int| 0 <= i < d.len() implies is_digit(#[trigger] d[i]) || d[i] == '-' by {
        assert('0' <= d[i] <= '9');
    }
    lemma_volume_digits_of(d);
    let m = seq!['-'] + d;
    assert forall|i: int| 0 <= i < m.len() implies is_digit(#[trigger] m[i]) || m[i] == '-' by {
        if i > 0 {
            assert(m[i] == d[i - 1]);
            assert('0' <= d[i - 1] <= '9');
        }
    }
    lemma_volume_digits_of(m);
}

/// Law: from a level between silence and full volume, a press stays between them, and the
/// step it takes fits in `i32` arithmetic.
pub proof fn lemma_step_keeps_percentage(level: int, action: VolumeAction)
    requires
        MIN_VOLUME <= level <= MAX_VOLUME,
    ensures
        step_fits(level, action),
        MIN_VOLUME <= stepped(level, action) <= MAX_VOLUME,
{
}

/// Law: `+` never takes the level above full volume nor lowers a level that is at most full
/// volume; `-` never takes the level below silence nor raises a level that is at least
/// silence.
pub proof fn lemma_step_direction(level: int)
    ensures
        stepped(level, VolumeAction::Up) <= MAX_VOLUME,
        level <= MAX_VOLUME ==> stepped(level, VolumeAction::Up) >= level,
        stepped(level, VolumeAction::Down) >= MIN_VOLUME,
        level >= MIN_VOLUME ==> stepped(level, VolumeAction::Down) <= level,
{
}

/// Law: a press moves the level by exactly one step of 20, except that `+` stops at 100 and
/// `-` stops at 0; within the range, `-` undoes `+` and `+` undoes `-`.
pub proof fn lemma_press_moves_one_step(level: int)
    ensures
        stepped(level, VolumeAction::Up) == level + 20 || (stepped(level, VolumeAction::Up) == 100
            && level + 20 >= 100),
        stepped(level, VolumeAction::Down) == level - 20 || (stepped(level, VolumeAction::Down)
            == 0 && level - 20 <= 0),
        level + 20 <= 100 ==> stepped(level, VolumeAction::Up) == level + 20,
        level - 20 >= 0 ==> stepped(level, VolumeAction::Down) == level - 20,
        0 <= level <= 80 ==> stepped(stepped(level, VolumeAction::Up), VolumeAction::Down)
            == level,
        20 <= level <= 100 ==> stepped(stepped(level, VolumeAction::Down), VolumeAction::Up)
            == level,
{
}

/// The label after one press on the label `text`: the label of the stepped level, or `text`
/// itself where it shows no level.
pub open spec fn pressed_label(text: Seq<char>, action: VolumeAction) -> Seq<char> {
    match read_volume(text) {
        Some(level) => volume_text(stepped(level as int, action)),
        None => text,
    }
}

/// The label after the presses `actions`, the first one first.
pub open spec fn label_after(text: Seq<char>, actions: Seq<VolumeAction>) -> Seq<char>
    decreases actions.len(),
{
    if actions.len() == 0 {
        text
    } else {
        label_after(pressed_label(text, actions[0]), actions.drop_first())
    }
}

/// Law: starting from the label of a level between silence and full volume, after any
/// presses the label still shows a level between them, and each of the presses was one that
/// `press_volume_button` accepts.
pub proof fn lemma_presses_keep_percentage(level: i32, actions: Seq<VolumeAction>)
    requires
        MIN_VOLUME <= level <= MAX_VOLUME,
    ensures
        read_volume(label_after(volume_text(level as int), actions)) matches Some(v) && MIN_VOLUME
            <= v <= MAX_VOLUME,
        forall|k: int|
            0 <= k < actions.len() ==> (read_volume(
                #[trigger] label_after(volume_text(level as int), actions.take(k)),
            ) matches Some(v) && step_fits(v as int, actions[k])),
    decreases actions.len(),
{
    lemma_label_reads_back(level);
    if actions.len() > 0 {
        let next = stepped(level as int, actions[0]);
        lemma_step_keeps_percentage(level as int, actions[0]);
        lemma_presses_keep_percentage(next as i32, actions.drop_first());
        assert forall|k: int| 0 <= k < actions.len() implies (read_volume(
            #[trigger] label_after(volume_text(level as int), actions.take(k)),
        ) matches Some(v) && step_fits(v as int, actions[k])) by {
            if k > 0 {
                assert(actions.take(k).drop_first() =~= actions.drop_first().take(k - 1));
                assert(actions.take(k)[0] == actions[0]);
                assert(actions.drop_first()[k - 1] == actions[k]);
                assert(label_after(volume_text(level as int), actions.take(k)) == label_after(
                    volume_text(next),
                    actions.drop_first().take(k - 1),
                ));
            } else {
                assert(actions.take(0) =~= Seq::<VolumeAction>::empty());
            }
        }
    }
}

/// Law: from the label the menu starts with, any presses leave a label that shows a level
/// between silence and full volume.
pub proof fn lemma_initial_label_stays_percentage(actions: Seq<VolumeAction>)
    ensures
        read_volume(label_after(volume_text(INITIAL_VOLUME as int), actions)) matches Some(v)
            && MIN_VOLUME <= v <= MAX_VOLUME,
{
    lemma_presses_keep_percentage(INITIAL_VOLUME, actions);
}

} // verus!
