use vstd::prelude::*;
use vstd::utf8::{decode_utf8, valid_utf8};

verus! {

broadcast use vstd::seq::group_seq_axioms;

/// The price data disclosed by a presentation.
#[derive(Debug, Clone)]
pub struct BinancePriceData {
    pub symbol: String,
    pub price: String,
    pub mins: u64,
    pub close_time: u64,
}

/// The text of the first capture group of the first match of regular expression
/// `pattern` in `text`; none where the pattern is invalid, nothing matches, or the
/// group takes no part in the match.
pub uninterp spec fn first_group(text: Seq<char>, pattern: Seq<char>) -> Option<Seq<char>>;

/// Relies on `regex::Regex::new`, `Regex::captures` and `Captures::get`: compiles
/// `pattern` and takes capture group 1 of the leftmost match in `text`.
#[verifier::external_body]
fn extract_value(text: &str, pattern: &str) -> (r: Option<String>)
    ensures
        r is Some <==> first_group(text@, pattern@) is Some,
        r matches Some(s) ==> first_group(text@, pattern@) == Some(s@),
{
    let re = regex::Regex::new(pattern).ok()?;
    let caps = re.captures(text)?;
    let group = caps.get(1)?;
    Some(group.as_str().to_string())
}

/// The first capture group of `pattern` in `text`, which the caller requires.
pub fn extract_required_value(text: &str, pattern: &str) -> (r: Option<String>)
    ensures
        r is Some <==> first_group(text@, pattern@) is Some,
        r matches Some(s) ==> first_group(text@, pattern@) == Some(s@),
{
    extract_value(text, pattern)
}

pub open spec fn is_ascii_digit(c: char) -> bool {
    '0' <= c && c <= '9'
}

/// The number that a sequence of decimal digits denotes.
pub open spec fn digits_value(s: Seq<char>) -> nat
    decreases s.len(),
{
    if s.len() == 0 {
        0
    } else {
        digits_value(s.drop_last()) * 10 + (s.last() as nat - '0' as nat) as nat
    }
}

/// The digits of a decimal literal: the text after an optional leading `+`.
pub open spec fn unsigned_digits(s: Seq<char>) -> Seq<char> {
    if s.len() > 0 && s[0] == '+' {
        s.drop_first()
    } else {
        s
    }
}

/// The `u64` that a text denotes: an optional `+` and one or more ASCII digits,
/// whose value fits.
pub open spec fn u64_of(s: Seq<char>) -> Option<u64> {
    let d = unsigned_digits(s);
    if d.len() > 0 && (forall|i: int| 0 <= i < d.len() ==> is_ascii_digit(#[trigger] d[i]))
        && digits_value(d) <= u64::MAX {
        Some(digits_value(d) as u64)
    } else {
        None
    }
}

/// Relies on `str::parse::<u64>`: an optional `+` followed by ASCII digits, in range.
#[verifier::external_body]
fn parse_u64(s: &str) -> (r: Option<u64>)
    ensures
        r == u64_of(s@),
{
    s.parse::<u64>().ok()
}

pub open spec fn symbol_pattern() -> Seq<char> {
    "symbol=([A-Z]+)"@
}

pub open spec fn price_pattern() -> Seq<char> {
    "\"price\":\"([0-9.]+)\""@
}

pub open spec fn mins_pattern() -> Seq<char> {
    "\"mins\":(\\d+)"@
}

pub open spec fn close_time_pattern() -> Seq<char> {
    "\"closeTime\":(\\d+)"@
}

/// The price data assembled from the four captured texts: present when all four are,
/// and both counts read as `u64`.
pub open spec fn price_data_of(
    symbol: Option<Seq<char>>,
    price: Option<Seq<char>>,
    mins: Option<Seq<char>>,
    close_time: Option<Seq<char>>,
    r: Option<BinancePriceData>,
) -> bool {
    match (symbol, price, mins, close_time) {
        (Some(s), Some(p), Some(m), Some(c)) => match (u64_of(m), u64_of(c)) {
            (Some(mv), Some(cv)) => r matches Some(d) && d.symbol@ == s && d.price@ == p
                && d.mins == mv && d.close_time == cv,
            _ => r is None,
        },
        _ => r is None,
    }
}

pub open spec fn view_opt(s: Option<String>) -> Option<Seq<char>> {
    match s {
        Some(x) => Some(x@),
        None => None,
    }
}

/// Assembles price data from the captured symbol, price, minutes and close time.
pub fn price_data_from_groups(
    symbol: Option<String>,
    price: Option<String>,
    mins: Option<String>,
    close_time: Option<String>,
) -> (r: Option<BinancePriceData>)
    ensures
        price_data_of(view_opt(symbol), view_opt(price), view_opt(mins), view_opt(close_time), r),
{
    let symbol = symbol?;
    let price = price?;
    let mins = mins?;
    let close_time = close_time?;
    let mins = parse_u64(mins.as_str())?;
    let close_time = parse_u64(close_time.as_str())?;
    Some(BinancePriceData { symbol, price, mins, close_time })
}

/// Reads the symbol from the sent text and the price, minutes and close time from the
/// received text.
pub fn parse_price_data(sent: &str, received: &str) -> (r: Option<BinancePriceData>)
    ensures
        price_data_of(
            first_group(sent@, symbol_pattern()),
            first_group(received@, price_pattern()),
            first_group(received@, mins_pattern()),
            first_group(received@, close_time_pattern()),
            r,
        ),
{
    let symbol = extract_required_value(sent, "symbol=([A-Z]+)");
    let price = extract_required_value(received, "\"price\":\"([0-9.]+)\"");
    let mins = extract_required_value(received, "\"mins\":(\\d+)");
    let close_time = extract_required_value(received, "\"closeTime\":(\\d+)");
    price_data_from_groups(symbol, price, mins, close_time)
}

/// Relies on `String::from_utf8`: accepts exactly the valid UTF-8 byte sequences.
#[verifier::external_body]
fn utf8_string(bytes: &[u8]) -> (r: Option<String>)
    ensures
        r is Some <==> valid_utf8(bytes@),
        r matches Some(s) ==> s@ == decode_utf8(bytes@),
{
    String::from_utf8(bytes.to_vec()).ok()
}

/// Relies on `String::push`: appends one character.
#[verifier::external_body]
fn push_char(s: &mut String, c: char)
    ensures
        final(s)@ == old(s)@.push(c),
{
    s.push(c)
}

/// The character that stands for a redacted byte.
pub open spec fn redaction_mark() -> char {
    '\u{1F648}'
}

/// `s` with every NUL character replaced by the redaction mark.
pub open spec fn redacted(s: Seq<char>) -> Seq<char>
    decreases s.len(),
{
    if s.len() == 0 {
        Seq::empty()
    } else {
        redacted(s.drop_last()).push(if s.last() == '\0' {
            redaction_mark()
        } else {
            s.last()
        })
    }
}

/// Renders transcript bytes as text, showing redacted (zero) bytes as a mark; bytes
/// that are not UTF-8 render as `Invalid UTF-8`.
pub fn bytes_to_redacted_string(bytes: &[u8]) -> (r: String)
    ensures
        r@ == redacted(
            if valid_utf8(bytes@) {
                decode_utf8(bytes@)
            } else {
                "Invalid UTF-8"@
            },
        ),
{
    let text = match utf8_string(bytes) {
        Some(s) => s,
        None => String::from_str("Invalid UTF-8"),
    };
    let chars = text.as_str();
    let n = chars.unicode_len();
    let mut out = String::new();
    let mut i: usize = 0;
    while i < n
        invariant
            n == chars@.len(),
            0 <= i <= n,
            out@ == redacted(chars@.subrange(0, i as int)),
        decreases n - i,
    {
        let c = chars.get_char(i);
        if c == '\0' {
            push_char(&mut out, '\u{1F648}');
        } else {
            push_char(&mut out, c);
        }
        proof {
            assert(chars@.subrange(0, i + 1).drop_last() =~= chars@.subrange(0, i as int));
        }
        i = i + 1;
    }
    assert(chars@.subrange(0, n as int) =~= chars@);
    out
}

} // verus!
