use vstd::prelude::*;

verus! {

broadcast use vstd::seq::group_seq_axioms;

/// The most bytes a proving session may send.
pub const MAX_SENT_DATA: usize = 4096;

/// The most bytes a proving session may receive.
pub const MAX_RECV_DATA: usize = 16384;

/// Limits of a proving session.
#[derive(Debug, Clone, Copy, PartialEq, Eq, Structural)]
pub struct ProverConfig {
    /// Maximum bytes of data that can be sent
    pub max_sent_data: usize,
    /// Maximum bytes of data that can be received
    pub max_recv_data: usize,
}

impl Default for ProverConfig {
    fn default() -> (r: ProverConfig)
        ensures
            r.max_sent_data == MAX_SENT_DATA,
            r.max_recv_data == MAX_RECV_DATA,
    {
        ProverConfig { max_sent_data: MAX_SENT_DATA, max_recv_data: MAX_RECV_DATA }
    }
}

/// Errors reported to the callers of the proving entry point.
#[derive(Debug)]
pub enum ApiError {
    /// Input is missing or invalid
    MissingInput,
    /// Index out of bounds error with details
    IndexOutOfBounds { index: u32, size: u32 },
    /// Generic error with a message
    Generic(String),
}

/// Generates proofs over notarized sessions.
#[derive(Debug)]
pub struct ProverService;

pub open spec fn is_https(scheme: Option<Seq<char>>) -> bool {
    scheme == Some("https"@)
}

impl ProverService {
    /// Create a new prover service.
    pub fn new() -> (r: ProverService) {
        ProverService {}
    }

    /// Whether a request with this URI scheme can be notarized: only `https` can.
    pub fn accepts_scheme(&self, scheme: Option<&str>) -> (r: bool)
        ensures
            r == is_https(
                match scheme {
                    Some(s) => Some(s@),
                    None => None,
                },
            ),
    {
        match scheme {
            Some(s) => String::from_str(s) == String::from_str("https"),
            None => false,
        }
    }
}

/// The port of a URL: the explicit one, else 443 for `https` and 80 otherwise.
pub fn port_or_default(port: Option<u16>, scheme: &str) -> (r: u16)
    ensures
        r == match port {
            Some(p) => p,
            None => if scheme@ == "https"@ {
                443u16
            } else {
                80u16
            },
        },
{
    match port {
        Some(p) => p,
        None => {
            if String::from_str(scheme) == String::from_str("https") {
                443
            } else {
                80
            }
        },
    }
}

/// The characters with the Unicode property `White_Space`.
pub open spec fn is_white_space(c: char) -> bool {
    ('\u{9}' <= c && c <= '\u{d}') || c == ' ' || c == '\u{85}' || c == '\u{a0}' || c == '\u{1680}'
        || ('\u{2000}' <= c && c <= '\u{200a}') || c == '\u{2028}' || c == '\u{2029}' || c
        == '\u{202f}' || c == '\u{205f}' || c == '\u{3000}'
}

/// The number of white-space characters that `s` starts with.
pub open spec fn leading_white(s: Seq<char>) -> nat
    decreases s.len(),
{
    if s.len() > 0 && is_white_space(s[0]) {
        1 + leading_white(s.drop_first())
    } else {
        0
    }
}

/// The number of white-space characters that `s` ends with.
pub open spec fn trailing_white(s: Seq<char>) -> nat
    decreases s.len(),
{
    if s.len() > 0 && is_white_space(s.last()) {
        1 + trailing_white(s.drop_last())
    } else {
        0
    }
}

/// `s` without its leading and trailing white space.
pub open spec fn trimmed(s: Seq<char>) -> Seq<char> {
    if leading_white(s) >= s.len() {
        Seq::empty()
    } else {
        s.subrange(leading_white(s) as int, s.len() - trailing_white(s))
    }
}

/// Relies on `str::trim`: removes leading and trailing characters with the Unicode
/// property `White_Space`.
#[verifier::external_body]
fn trim(s: &str) -> (r: String)
    ensures
        r@ == trimmed(s@),
{
    s.trim().to_string()
}

/// The position of the first `:` in `s`.
pub open spec fn first_colon(s: Seq<char>) -> Option<int> {
    if exists|i: int| 0 <= i < s.len() && s[i] == ':' {
        Some(choose|i: int| 0 <= i < s.len() && s[i] == ':' && forall|j: int| 0 <= j < i ==> s[j] != ':')
    } else {
        None
    }
}

/// Splits a `Key: Value` header line at its first colon, trimming both sides.
pub fn split_header_line(header: &str) -> (r: Option<(String, String)>)
    ensures
        match first_colon(header@) {
            Some(i) => r matches Some((k, v)) && k@ == trimmed(header@.subrange(0, i))
                && v@ == trimmed(header@.subrange(i + 1, header@.len() as int)),
            None => r is None,
        },
{
    let n = header.unicode_len();
    let mut i: usize = 0;
    while i < n
        invariant
            n == header@.len(),
            0 <= i <= n,
            forall|j: int| 0 <= j < i ==> header@[j] != ':',
        decreases n - i,
    {
        if header.get_char(i) == ':' {
            let key = trim(header.substring_char(0, i));
            let value = trim(header.substring_char(i + 1, n));
            proof {
                let w = choose|w: int|
                    0 <= w < header@.len() && header@[w] == ':' && forall|j: int|
                        0 <= j < w ==> header@[j] != ':';
                assert(w == i);
            }
            return Some((key, value));
        }
        i = i + 1;
    }
    None
}

} // verus!
