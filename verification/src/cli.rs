use vstd::prelude::*;
use vstd::string::*;
use crate::drawer::Color;

verus! {

/// The value of a hexadecimal digit, in either case.
pub open spec fn hex_digit(b: u8) -> Option<u8> {
    if 0x30 <= b <= 0x39 {
        Some((b - 0x30) as u8)
    } else if 0x61 <= b <= 0x66 {
        Some((b - 0x61 + 10) as u8)
    } else if 0x41 <= b <= 0x46 {
        Some((b - 0x41 + 10) as u8)
    } else {
        None
    }
}

/// The value of two characters read as a number in base 16: two digits,
/// or a plus sign and one digit.
pub open spec fn hex_pair(hi: u8, lo: u8) -> Option<u8> {
    if hi == 0x2b {
        hex_digit(lo)
    } else {
        match (hex_digit(hi), hex_digit(lo)) {
            (Some(h), Some(l)) => Some((16 * h + l) as u8),
            _ => None,
        }
    }
}

/// How many number signs the text starts with.
pub open spec fn hash_count(bytes: Seq<u8>) -> int
    decreases bytes.len(),
{
    if bytes.len() > 0 && bytes[0] == 0x23 {
        1 + hash_count(bytes.drop_first())
    } else {
        0
    }
}

/// The colour written in the six bytes from `start` on, two for each of
/// red, green and blue; what follows them is not looked at.
pub open spec fn color_at(bytes: Seq<u8>, start: int) -> Option<Color> {
    if 0 <= start && start + 6 <= bytes.len() {
        match (
            hex_pair(bytes[start], bytes[start + 1]),
            hex_pair(bytes[start + 2], bytes[start + 3]),
            hex_pair(bytes[start + 4], bytes[start + 5]),
        ) {
            (Some(red), Some(green), Some(blue)) => Some(Color { red, green, blue }),
            _ => None,
        }
    } else {
        None
    }
}

/// The colour that a text names: after any number of number signs, six
/// hexadecimal digits.
pub open spec fn parsed_color(bytes: Seq<u8>) -> Option<Color> {
    color_at(bytes, hash_count(bytes))
}

/// A mark, a space and a message.
pub open spec fn marked(mark: Seq<char>, message: Seq<char>) -> Seq<char> {
    mark + seq![' '] + message
}

/// The value of a hexadecimal digit.
fn digit_value(b: u8) -> (d: Option<u8>)
    ensures
        d == hex_digit(b),
{
    if 0x30 <= b && b <= 0x39 {
        Some(b - 0x30)
    } else if 0x61 <= b && b <= 0x66 {
        Some(b - 0x61 + 10)
    } else if 0x41 <= b && b <= 0x46 {
        Some(b - 0x41 + 10)
    } else {
        None
    }
}

/// The value of two characters read in base 16.
fn pair_value(hi: u8, lo: u8) -> (v: Option<u8>)
    ensures
        v == hex_pair(hi, lo),
{
    if hi == 0x2b {
        digit_value(lo)
    } else {
        match (digit_value(hi), digit_value(lo)) {
            (Some(h), Some(l)) => Some(16 * h + l),
            _ => None,
        }
    }
}

/// Skipping `i` number signs leaves the count of those that follow.
proof fn lemma_hash_count_skip(bytes: Seq<u8>, i: int)
    requires
        0 <= i <= bytes.len(),
        forall|k: int| 0 <= k < i ==> bytes[k] == 0x23,
    ensures
        hash_count(bytes) == i + hash_count(bytes.subrange(i, bytes.len() as int)),
    decreases i,
{
    if i == 0 {
        assert(bytes.subrange(0, bytes.len() as int) =~= bytes);
    } else {
        let rest = bytes.drop_first();
        assert forall|k: int| 0 <= k < i - 1 implies rest[k] == 0x23 by {
            assert(rest[k] == bytes[k + 1]);
        }
        lemma_hash_count_skip(rest, i - 1);
        assert(rest.subrange(i - 1, rest.len() as int) =~= bytes.subrange(i, bytes.len() as int));
    }
}

/// Reads a colour from its hexadecimal form, such as `#ff8800`.
pub fn color_from_hex(hex: &str) -> (r: Result<Color, String>)
    ensures
        match r {
            Ok(color) => parsed_color(hex.spec_bytes()) == Some(color),
            Err(message) => parsed_color(hex.spec_bytes()) is None && message@
                == "invalid hex color !"@,
        },
{
    let bytes = hex.as_bytes();
    let n = bytes.len();
    let mut start: usize = 0;
    while start < n && bytes[start] == 0x23
        invariant
            0 <= start <= n,
            n == bytes@.len(),
            forall|k: int| 0 <= k < start ==> bytes@[k] == 0x23,
        decreases n - start,
    {
        start += 1;
    }
    proof {
        lemma_hash_count_skip(bytes@, start as int);
    }
    if n - start < 6 {
        return Err(String::from_str("invalid hex color !"));
    }
    let red = pair_value(bytes[start], bytes[start + 1]);
    let green = pair_value(bytes[start + 2], bytes[start + 3]);
    let blue = pair_value(bytes[start + 4], bytes[start + 5]);
    match (red, green, blue) {
        (Some(red), Some(green), Some(blue)) => Ok(Color { red, green, blue }),
        _ => Err(String::from_str("invalid hex color !")),
    }
}

/// The escape character, with which a terminal's colour codes begin.
pub open spec fn has_escape(text: Seq<char>) -> bool {
    text.contains('\u{1b}')
}

/// The code that switches a terminal to red.
pub open spec fn red_code() -> Seq<char> {
    seq!['\u{1b}', '[', '3', '1', 'm']
}

/// The code that switches a terminal to green.
pub open spec fn green_code() -> Seq<char> {
    seq!['\u{1b}', '[', '3', '2', 'm']
}

/// The code that switches a terminal back to its own colour.
pub open spec fn reset_code() -> Seq<char> {
    seq!['\u{1b}', '[', '0', 'm']
}

/// A text with the colour code before it, or not, and the reset code
/// after it, or not.
pub open spec fn painted(text: Seq<char>, code: Seq<char>, coded: bool, reset: bool) -> Seq<char> {
    (if coded {
        code
    } else {
        Seq::empty()
    }) + text + (if reset {
        reset_code()
    } else {
        Seq::empty()
    })
}

/// `out` is `text` as it is written for a terminal: bare where colours
/// are off, between the colour code and the reset code where they are on.
/// Whether colours are on is looked up first for the reset code and then
/// again for the colour code; should they be switched off in between, the
/// text has the reset code after it and no colour code before it.
pub open spec fn is_painted(out: Seq<char>, text: Seq<char>, code: Seq<char>) -> bool {
    exists|coded: bool, reset: bool|
        (coded ==> reset) && out == #[trigger] painted(text, code, coded, reset)
}

/// A line that reports a failure: a cross, bare or in red, then a space
/// and the message.
pub open spec fn is_error_line(line: Seq<char>, message: Seq<char>) -> bool {
    exists|coded: bool, reset: bool|
        (coded ==> reset) && line == marked(
            #[trigger] painted(seq!['\u{2718}'], red_code(), coded, reset),
            message,
        )
}

/// A line that reports a success: a check mark, bare or in green, then a
/// space and the message.
pub open spec fn is_success_line(line: Seq<char>, message: Seq<char>) -> bool {
    exists|coded: bool, reset: bool|
        (coded ==> reset) && line == marked(
            #[trigger] painted(seq!['\u{2714}'], green_code(), coded, reset),
            message,
        )
}

/// `Colorize::red` on a text, written out. Where colours are switched off
/// this is the text itself; where they are on, the code for red stands
/// before it and the reset code after it. Only a text that holds colour
/// codes of its own is changed within.
#[verifier::external_body]
fn red_text(text: &str) -> (out: String)
    ensures
        !has_escape(text@) ==> is_painted(out@, text@, red_code()),
{
    format!("{}", colored::Colorize::red(text))
}

/// `Colorize::green` on a text, written out. Where colours are switched
/// off this is the text itself; where they are on, the code for green
/// stands before it and the reset code after it. Only a text that holds
/// colour codes of its own is changed within.
#[verifier::external_body]
fn green_text(text: &str) -> (out: String)
    ensures
        !has_escape(text@) ==> is_painted(out@, text@, green_code()),
{
    format!("{}", colored::Colorize::green(text))
}

/// Puts a mark and a message on one line, a space between them.
pub fn mark_line(mark: String, message: &str) -> (line: String)
    ensures
        line@ == marked(mark@, message@),
{
    proof {
        reveal_strlit(" ");
    }
    let line = mark.concat(" ").concat(message);
    assert(" "@ =~= seq![' ']);
    line
}

/// A message that reports a failure: a cross, in red where the terminal
/// shows colours, then a space and the message.
pub fn format_error(message: &str) -> (line: String)
    ensures
        is_error_line(line@, message@),
{
    proof {
        reveal_strlit("\u{2718}");
    }
    assert("\u{2718}"@ =~= seq!['\u{2718}']);
    assert(!has_escape("\u{2718}"@));
    let mark = red_text("\u{2718}");
    proof {
        let (coded, reset) = choose|coded: bool, reset: bool|
            (coded ==> reset) && mark@ == #[trigger] painted(
                "\u{2718}"@,
                red_code(),
                coded,
                reset,
            );
        assert(mark@ == painted(seq!['\u{2718}'], red_code(), coded, reset));
    }
    mark_line(mark, message)
}

/// A message that reports a success: a check mark, in green where the
/// terminal shows colours, then a space and the message.
pub fn format_success(message: &str) -> (line: String)
    ensures
        is_success_line(line@, message@),
{
    proof {
        reveal_strlit("\u{2714}");
    }
    assert("\u{2714}"@ =~= seq!['\u{2714}']);
    assert(!has_escape("\u{2714}"@));
    let mark = green_text("\u{2714}");
    proof {
        let (coded, reset) = choose|coded: bool, reset: bool|
            (coded ==> reset) && mark@ == #[trigger] painted(
                "\u{2714}"@,
                green_code(),
                coded,
                reset,
            );
        assert(mark@ == painted(seq!['\u{2714}'], green_code(), coded, reset));
    }
    mark_line(mark, message)
}

/// A line that reports a success is never a line that reports a failure,
/// whatever the two messages are and whether colours are on or off: the
/// two begin with different marks, or with the codes of different
/// colours.
pub proof fn lemma_success_is_not_error(
    failure: Seq<char>,
    success: Seq<char>,
    said: Seq<char>,
    done: Seq<char>,
)
    requires
        is_error_line(failure, said),
        is_success_line(success, done),
    ensures
        failure != success,
{
    let (c1, r1) = choose|coded: bool, reset: bool|
        (coded ==> reset) && failure == marked(
            #[trigger] painted(seq!['\u{2718}'], red_code(), coded, reset),
            said,
        );
    let (c2, r2) = choose|coded: bool, reset: bool|
        (coded ==> reset) && success == marked(
            #[trigger] painted(seq!['\u{2714}'], green_code(), coded, reset),
            done,
        );
    let cross = painted(seq!['\u{2718}'], red_code(), c1, r1);
    let check = painted(seq!['\u{2714}'], green_code(), c2, r2);
    assert(failure[0] == cross[0]);
    assert(success[0] == check[0]);
    assert(cross[0] == if c1 {
        '\u{1b}'
    } else {
        '\u{2718}'
    });
    assert(check[0] == if c2 {
        '\u{1b}'
    } else {
        '\u{2714}'
    });
    if c1 && c2 {
        assert(failure[3] == cross[3]);
        assert(success[3] == check[3]);
        assert(cross[3] == '1');
        assert(check[3] == '2');
    }
}

} // verus!
