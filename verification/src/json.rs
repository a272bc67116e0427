//! Byte-level scanning of the JSON wire format.
//!
//! The envelope grammar is this crate's own wire contract, so it is defined
//! here directly over byte sequences, and the executable scanners are proved
//! to return exactly what the definitions say.  A whole value is walked by a
//! state machine ([`scan_from`]) that validates its syntax and yields its
//! extent; string bodies are decoded, escapes included, by [`scan_str`].
//! Payload bytes are only checked for syntax, never interpreted: the payload
//! is opaque to this layer.

use vstd::prelude::*;
use vstd::utf8::encode_scalar;

verus! {

/// Opening brace.
pub const LBRACE: u8 = 0x7b;

/// Closing brace.
pub const RBRACE: u8 = 0x7d;

/// Opening bracket.
pub const LBRACK: u8 = 0x5b;

/// Closing bracket.
pub const RBRACK: u8 = 0x5d;

/// Double quote.
pub const QUOTE: u8 = 0x22;

/// Backslash.
pub const BSLASH: u8 = 0x5c;

/// Comma.
pub const COMMA: u8 = 0x2c;

/// Colon.
pub const COLON: u8 = 0x3a;

/// True for the four whitespace bytes JSON allows between tokens.
pub open spec fn is_ws(b: u8) -> bool {
    b == 0x20 || b == 0x09 || b == 0x0a || b == 0x0d
}

/// True for an ASCII decimal digit.
pub open spec fn is_digit(b: u8) -> bool {
    0x30 <= b <= 0x39
}

/// The value of a hexadecimal digit byte, if it is one.
pub open spec fn hex_val(b: u8) -> Option<u32> {
    if 0x30 <= b <= 0x39 {
        Some((b - 0x30) as u32)
    } else if 0x41 <= b <= 0x46 {
        Some((b - 0x41 + 10) as u32)
    } else if 0x61 <= b <= 0x66 {
        Some((b - 0x61 + 10) as u32)
    } else {
        None
    }
}

/// The value of the four hexadecimal digits starting at `i`, if all four are
/// present and valid.
pub open spec fn hex4(s: Seq<u8>, i: int) -> Option<u32> {
    if i + 4 <= s.len() {
        match (hex_val(s[i]), hex_val(s[i + 1]), hex_val(s[i + 2]), hex_val(s[i + 3])) {
            (Some(a), Some(b), Some(c), Some(d)) => Some(
                (a * 0x1000 + b * 0x100 + c * 0x10 + d) as u32,
            ),
            _ => None,
        }
    } else {
        None
    }
}

/// The byte a single-character escape stands for, if the escape is legal.
pub open spec fn simple_escape(b: u8) -> Option<u8> {
    if b == QUOTE {
        Some(QUOTE)
    } else if b == BSLASH {
        Some(BSLASH)
    } else if b == 0x2f {  // slash
        Some(0x2f)
    } else if b == 0x62 {  // b
        Some(0x08)
    } else if b == 0x66 {  // f
        Some(0x0c)
    } else if b == 0x6e {  // n
        Some(0x0a)
    } else if b == 0x72 {  // r
        Some(0x0d)
    } else if b == 0x74 {  // t
        Some(0x09)
    } else {
        None
    }
}

/// Classifies `b` as the leading byte of a multibyte UTF-8 scalar: the
/// allowed range of the byte right after it and how many plain
/// continuation bytes follow that one.  The ranges exclude overlong
/// encodings, surrogates and values beyond the scalar range, so exactly
/// the well-formed sequences pass.
pub open spec fn utf8_lead(b: u8) -> Option<(u8, u8, u8)> {
    if 0xc2 <= b <= 0xdf {
        Some((0x80, 0xbf, 0))
    } else if b == 0xe0 {
        Some((0xa0, 0xbf, 1))
    } else if 0xe1 <= b <= 0xec {
        Some((0x80, 0xbf, 1))
    } else if b == 0xed {
        Some((0x80, 0x9f, 1))
    } else if 0xee <= b <= 0xef {
        Some((0x80, 0xbf, 1))
    } else if b == 0xf0 {
        Some((0x90, 0xbf, 2))
    } else if 0xf1 <= b <= 0xf3 {
        Some((0x80, 0xbf, 2))
    } else if b == 0xf4 {
        Some((0x80, 0x8f, 2))
    } else {
        None
    }
}

/// The first position at or after `i` that holds no whitespace byte.
pub open spec fn skip_ws_s(s: Seq<u8>, i: int) -> int
    decreases s.len() - i,
{
    if i < s.len() && is_ws(s[i]) {
        skip_ws_s(s, i + 1)
    } else {
        i
    }
}

/// Scans a string body starting just after its opening quote: yields the
/// decoded content (escapes resolved, as UTF-8 bytes) and the position just
/// past the closing quote.  Unescaped control bytes, bad escapes, unpaired
/// surrogate escapes and raw bytes that are not well-formed UTF-8 are
/// rejected, as the wire contract demands.
pub open spec fn scan_str(s: Seq<u8>, i: int) -> Option<(Seq<u8>, int)>
    decreases s.len() - i,
{
    if i < 0 || i >= s.len() {
        None
    } else {
        let b = s[i];
        if b == QUOTE {
            Some((Seq::empty(), i + 1))
        } else if b == BSLASH {
            if i + 2 > s.len() {
                None
            } else if s[i + 1] == 0x75 {  // u
                scan_str_unicode(s, i)
            } else {
                match simple_escape(s[i + 1]) {
                    Some(d) => match scan_str(s, i + 2) {
                        Some((rest, e)) => Some((seq![d] + rest, e)),
                        None => None,
                    },
                    None => None,
                }
            }
        } else if b < 0x20 {
            None
        } else if b < 0x80 {
            match scan_str(s, i + 1) {
                Some((rest, e)) => Some((seq![b] + rest, e)),
                None => None,
            }
        } else {
            match utf8_lead(b) {
                None => None,
                Some((lo, hi, more)) => {
                    if i + 2 + more <= s.len() && lo <= s[i + 1] <= hi && (more < 1 || (0x80 <= s[i
                        + 2] <= 0xbf)) && (more < 2 || (0x80 <= s[i + 3] <= 0xbf)) {
                        match scan_str(s, i + 2 + more) {
                            Some((rest, e)) => Some((s.subrange(i, i + 2 + more) + rest, e)),
                            None => None,
                        }
                    } else {
                        None
                    }
                },
            }
        }
    }
}

/// The unicode-escape case of [`scan_str`], entered with `i` at the
/// backslash of `\u`.  A leading surrogate must be followed by a trailing
/// surrogate escape; the pair encodes one scalar beyond the basic plane.
pub open spec fn scan_str_unicode(s: Seq<u8>, i: int) -> Option<(Seq<u8>, int)>
    decreases s.len() - i - 1,
{
    match hex4(s, i + 2) {
        None => None,
        Some(cp) => {
            if 0xd800 <= cp < 0xdc00 {
                if i + 8 <= s.len() && s[i + 6] == BSLASH && s[i + 7] == 0x75 {
                    match hex4(s, i + 8) {
                        None => None,
                        Some(lo) => {
                            if 0xdc00 <= lo < 0xe000 {
                                let scalar = (0x10000 + (cp - 0xd800) * 0x400 + (lo
                                    - 0xdc00)) as u32;
                                match scan_str(s, i + 12) {
                                    Some((rest, e)) => Some((encode_scalar(scalar) + rest, e)),
                                    None => None,
                                }
                            } else {
                                None
                            }
                        },
                    }
                } else {
                    None
                }
            } else if 0xdc00 <= cp < 0xe000 {
                None
            } else {
                match scan_str(s, i + 6) {
                    Some((rest, e)) => Some((encode_scalar(cp) + rest, e)),
                    None => None,
                }
            }
        },
    }
}

/// Scanner state for walking one JSON value byte by byte.
#[derive(PartialEq, Eq, Structural, Clone, Copy, Debug)]
pub enum ScanState {
    /// Expecting the first byte of a value; leading whitespace allowed.
    Value,
    /// Inside a string; the flag says whether it is an object key.
    Text(bool),
    /// Inside a string, just after a backslash.
    TextEscape(bool),
    /// Inside a unicode escape, owing this many hex digits.
    TextHex(bool, u8),
    /// Inside a raw multibyte UTF-8 scalar in a string: the next byte must
    /// fall in the given range, with this many plain continuation bytes
    /// after it.
    TextBytes(bool, u8, u8, u8),
    /// Read a minus sign; a first digit must follow.
    NumMinus,
    /// Read a leading zero: the integer part is complete.
    NumZero,
    /// Inside the integer digits.
    NumInt,
    /// Read a decimal point; a fraction digit must follow.
    NumDot,
    /// Inside the fraction digits.
    NumFrac,
    /// Read an exponent marker; a sign or digit must follow.
    NumExp,
    /// Read an exponent sign; a digit must follow.
    NumExpSign,
    /// Inside the exponent digits.
    NumExpDigits,
    /// Inside `true`, `false` or `null` (first field selects which),
    /// having consumed this many of its bytes (second field).
    Literal(u8, u8),
    /// A complete value was read and its enclosing container continues.
    After,
    /// Just after an opening brace: expecting a key or a closing brace.
    FirstKey,
    /// Just after a comma in an object: expecting a key.
    NextKey,
    /// Just after a key: expecting a colon.
    Colon,
    /// Just after an opening bracket: expecting a value or a closing
    /// bracket.
    FirstElem,
}

/// True in the number states that may legally end the number.
pub open spec fn is_num_end(st: ScanState) -> bool {
    st == ScanState::NumZero || st == ScanState::NumInt || st == ScanState::NumFrac || st
        == ScanState::NumExpDigits
}

/// The byte at position `k` of the literal selected by `which`
/// (`0` is `true`, `1` is `false`, anything else `null`).
pub open spec fn lit_byte(which: u8, k: u8) -> u8 {
    let w: Seq<u8> = if which == 0 {
        seq![0x74, 0x72, 0x75, 0x65]
    } else if which == 1 {
        seq![0x66, 0x61, 0x6c, 0x73, 0x65]
    } else {
        seq![0x6e, 0x75, 0x6c, 0x6c]
    };
    if k < w.len() {
        w[k as int]
    } else {
        0
    }
}

/// The length of the literal selected by `which`.
pub open spec fn lit_len(which: u8) -> u8 {
    if which == 1 {
        5
    } else {
        4
    }
}

/// Ordering used only to justify termination: the two dispatch steps that
/// re-read the current byte move to a state of smaller rank.
pub open spec fn state_rank(st: ScanState) -> int {
    match st {
        ScanState::After => 0,
        ScanState::Value => 1,
        _ => 2,
    }
}

/// Walks one JSON value, one byte per step.  Entered at `i` in state `st`
/// with `stack` recording the open containers (`true` for an object,
/// `false` for an array, innermost last); yields the position just past the
/// value when the walk started in state [`ScanState::Value`] with an empty
/// stack, and `None` when the bytes break the grammar.  A number's end is
/// found at the first byte that cannot extend it, which is then not
/// consumed.
pub open spec fn scan_from(s: Seq<u8>, i: int, st: ScanState, stack: Seq<bool>) -> Option<int>
    decreases s.len() - i, state_rank(st),
{
    if i < 0 {
        None
    } else if i >= s.len() {
        if i == s.len() && stack.len() == 0 && is_num_end(st) {
            Some(i)
        } else {
            None
        }
    } else {
        let b = s[i];
        match st {
            ScanState::Value => {
                if is_ws(b) {
                    scan_from(s, i + 1, ScanState::Value, stack)
                } else if b == LBRACE {
                    scan_from(s, i + 1, ScanState::FirstKey, stack.push(true))
                } else if b == LBRACK {
                    scan_from(s, i + 1, ScanState::FirstElem, stack.push(false))
                } else if b == QUOTE {
                    scan_from(s, i + 1, ScanState::Text(false), stack)
                } else if b == 0x2d {  // minus
                    scan_from(s, i + 1, ScanState::NumMinus, stack)
                } else if b == 0x30 {
                    scan_from(s, i + 1, ScanState::NumZero, stack)
                } else if is_digit(b) {
                    scan_from(s, i + 1, ScanState::NumInt, stack)
                } else if b == 0x74 {  // t
                    scan_from(s, i + 1, ScanState::Literal(0, 1), stack)
                } else if b == 0x66 {  // f
                    scan_from(s, i + 1, ScanState::Literal(1, 1), stack)
                } else if b == 0x6e {  // n
                    scan_from(s, i + 1, ScanState::Literal(2, 1), stack)
                } else {
                    None
                }
            },
            ScanState::Text(key) => {
                if b == QUOTE {
                    if key {
                        scan_from(s, i + 1, ScanState::Colon, stack)
                    } else if stack.len() == 0 {
                        Some(i + 1)
                    } else {
                        scan_from(s, i + 1, ScanState::After, stack)
                    }
                } else if b == BSLASH {
                    scan_from(s, i + 1, ScanState::TextEscape(key), stack)
                } else if b < 0x20 {
                    None
                } else if b < 0x80 {
                    scan_from(s, i + 1, ScanState::Text(key), stack)
                } else {
                    match utf8_lead(b) {
                        None => None,
                        Some((lo, hi, more)) => scan_from(
                            s,
                            i + 1,
                            ScanState::TextBytes(key, lo, hi, more),
                            stack,
                        ),
                    }
                }
            },
            ScanState::TextBytes(key, lo, hi, more) => {
                if lo <= b && b <= hi {
                    if more == 0 {
                        scan_from(s, i + 1, ScanState::Text(key), stack)
                    } else {
                        scan_from(
                            s,
                            i + 1,
                            ScanState::TextBytes(key, 0x80, 0xbf, (more - 1) as u8),
                            stack,
                        )
                    }
                } else {
                    None
                }
            },
            ScanState::TextEscape(key) => {
                if b == 0x75 {  // u
                    scan_from(s, i + 1, ScanState::TextHex(key, 4), stack)
                } else if simple_escape(b) is Some {
                    scan_from(s, i + 1, ScanState::Text(key), stack)
                } else {
                    None
                }
            },
            ScanState::TextHex(key, n) => {
                if hex_val(b) is Some {
                    if n <= 1 {
                        scan_from(s, i + 1, ScanState::Text(key), stack)
                    } else {
                        scan_from(s, i + 1, ScanState::TextHex(key, (n - 1) as u8), stack)
                    }
                } else {
                    None
                }
            },
            ScanState::NumMinus => {
                if b == 0x30 {
                    scan_from(s, i + 1, ScanState::NumZero, stack)
                } else if is_digit(b) {
                    scan_from(s, i + 1, ScanState::NumInt, stack)
                } else {
                    None
                }
            },
            ScanState::NumZero => {
                if b == 0x2e {  // dot
                    scan_from(s, i + 1, ScanState::NumDot, stack)
                } else if b == 0x65 || b == 0x45 {  // e E
                    scan_from(s, i + 1, ScanState::NumExp, stack)
                } else if stack.len() == 0 {
                    Some(i)
                } else {
                    scan_from(s, i, ScanState::After, stack)
                }
            },
            ScanState::NumInt => {
                if is_digit(b) {
                    scan_from(s, i + 1, ScanState::NumInt, stack)
                } else if b == 0x2e {
                    scan_from(s, i + 1, ScanState::NumDot, stack)
                } else if b == 0x65 || b == 0x45 {
                    scan_from(s, i + 1, ScanState::NumExp, stack)
                } else if stack.len() == 0 {
                    Some(i)
                } else {
                    scan_from(s, i, ScanState::After, stack)
                }
            },
            ScanState::NumDot => {
                if is_digit(b) {
                    scan_from(s, i + 1, ScanState::NumFrac, stack)
                } else {
                    None
                }
            },
            ScanState::NumFrac => {
                if is_digit(b) {
                    scan_from(s, i + 1, ScanState::NumFrac, stack)
                } else if b == 0x65 || b == 0x45 {
                    scan_from(s, i + 1, ScanState::NumExp, stack)
                } else if stack.len() == 0 {
                    Some(i)
                } else {
                    scan_from(s, i, ScanState::After, stack)
                }
            },
            ScanState::NumExp => {
                if b == 0x2b || b == 0x2d {  // plus minus
                    scan_from(s, i + 1, ScanState::NumExpSign, stack)
                } else if is_digit(b) {
                    scan_from(s, i + 1, ScanState::NumExpDigits, stack)
                } else {
                    None
                }
            },
            ScanState::NumExpSign => {
                if is_digit(b) {
                    scan_from(s, i + 1, ScanState::NumExpDigits, stack)
                } else {
                    None
                }
            },
            ScanState::NumExpDigits => {
                if is_digit(b) {
                    scan_from(s, i + 1, ScanState::NumExpDigits, stack)
                } else if stack.len() == 0 {
                    Some(i)
                } else {
                    scan_from(s, i, ScanState::After, stack)
                }
            },
            ScanState::Literal(which, k) => {
                if b == lit_byte(which, k) {
                    if k + 1 == lit_len(which) {
                        if stack.len() == 0 {
                            Some(i + 1)
                        } else {
                            scan_from(s, i + 1, ScanState::After, stack)
                        }
                    } else {
                        scan_from(s, i + 1, ScanState::Literal(which, (k + 1) as u8), stack)
                    }
                } else {
                    None
                }
            },
            ScanState::After => {
                if is_ws(b) {
                    scan_from(s, i + 1, ScanState::After, stack)
                } else if b == COMMA && stack.len() > 0 {
                    if stack.last() {
                        scan_from(s, i + 1, ScanState::NextKey, stack)
                    } else {
                        scan_from(s, i + 1, ScanState::Value, stack)
                    }
                } else if b == RBRACE && stack.len() > 0 && stack.last() {
                    if stack.len() == 1 {
                        Some(i + 1)
                    } else {
                        scan_from(s, i + 1, ScanState::After, stack.drop_last())
                    }
                } else if b == RBRACK && stack.len() > 0 && !stack.last() {
                    if stack.len() == 1 {
                        Some(i + 1)
                    } else {
                        scan_from(s, i + 1, ScanState::After, stack.drop_last())
                    }
                } else {
                    None
                }
            },
            ScanState::FirstKey => {
                if is_ws(b) {
                    scan_from(s, i + 1, ScanState::FirstKey, stack)
                } else if b == QUOTE {
                    scan_from(s, i + 1, ScanState::Text(true), stack)
                } else if b == RBRACE && stack.len() > 0 && stack.last() {
                    if stack.len() == 1 {
                        Some(i + 1)
                    } else {
                        scan_from(s, i + 1, ScanState::After, stack.drop_last())
                    }
                } else {
                    None
                }
            },
            ScanState::NextKey => {
                if is_ws(b) {
                    scan_from(s, i + 1, ScanState::NextKey, stack)
                } else if b == QUOTE {
                    scan_from(s, i + 1, ScanState::Text(true), stack)
                } else {
                    None
                }
            },
            ScanState::Colon => {
                if is_ws(b) {
                    scan_from(s, i + 1, ScanState::Colon, stack)
                } else if b == COLON {
                    scan_from(s, i + 1, ScanState::Value, stack)
                } else {
                    None
                }
            },
            ScanState::FirstElem => {
                if is_ws(b) {
                    scan_from(s, i + 1, ScanState::FirstElem, stack)
                } else if b == RBRACK && stack.len() > 0 && !stack.last() {
                    if stack.len() == 1 {
                        Some(i + 1)
                    } else {
                        scan_from(s, i + 1, ScanState::After, stack.drop_last())
                    }
                } else {
                    scan_from(s, i, ScanState::Value, stack)
                }
            },
        }
    }
}

/// The extent of one whole value starting at `i`: the position just past it,
/// or `None` when the bytes there are not a value.
pub open spec fn scan_value_s(s: Seq<u8>, i: int) -> Option<int> {
    scan_from(s, i, ScanState::Value, Seq::empty())
}

/// Whitespace test on a byte.
pub fn is_ws_x(b: u8) -> (r: bool)
    ensures
        r == is_ws(b),
{
    b == 0x20 || b == 0x09 || b == 0x0a || b == 0x0d
}

/// Digit test on a byte.
pub fn is_digit_x(b: u8) -> (r: bool)
    ensures
        r == is_digit(b),
{
    0x30 <= b && b <= 0x39
}

/// Hexadecimal digit value of a byte.
pub fn hex_val_x(b: u8) -> (r: Option<u32>)
    ensures
        r == hex_val(b),
{
    if 0x30 <= b && b <= 0x39 {
        Some((b - 0x30) as u32)
    } else if 0x41 <= b && b <= 0x46 {
        Some((b - 0x41 + 10) as u32)
    } else if 0x61 <= b && b <= 0x66 {
        Some((b - 0x61 + 10) as u32)
    } else {
        None
    }
}

/// The value of the four hexadecimal digits starting at `i`.
pub fn hex4_x(s: &[u8], i: usize) -> (r: Option<u32>)
    requires
        i <= s@.len(),
    ensures
        r == hex4(s@, i as int),
{
    if s.len() - i >= 4 {
        let a = hex_val_x(s[i]);
        let b = hex_val_x(s[i + 1]);
        let c = hex_val_x(s[i + 2]);
        let d = hex_val_x(s[i + 3]);
        match (a, b, c, d) {
            (Some(a), Some(b), Some(c), Some(d)) => Some(a * 0x1000 + b * 0x100 + c * 0x10 + d),
            _ => None,
        }
    } else {
        None
    }
}

/// The byte a single-character escape stands for.
pub fn simple_escape_x(b: u8) -> (r: Option<u8>)
    ensures
        r == simple_escape(b),
{
    if b == QUOTE {
        Some(QUOTE)
    } else if b == BSLASH {
        Some(BSLASH)
    } else if b == 0x2f {
        Some(0x2f)
    } else if b == 0x62 {
        Some(0x08)
    } else if b == 0x66 {
        Some(0x0c)
    } else if b == 0x6e {
        Some(0x0a)
    } else if b == 0x72 {
        Some(0x0d)
    } else if b == 0x74 {
        Some(0x09)
    } else {
        None
    }
}

/// Classifies a multibyte UTF-8 leading byte.
pub fn utf8_lead_x(b: u8) -> (r: Option<(u8, u8, u8)>)
    ensures
        r == utf8_lead(b),
{
    if 0xc2 <= b && b <= 0xdf {
        Some((0x80, 0xbf, 0))
    } else if b == 0xe0 {
        Some((0xa0, 0xbf, 1))
    } else if 0xe1 <= b && b <= 0xec {
        Some((0x80, 0xbf, 1))
    } else if b == 0xed {
        Some((0x80, 0x9f, 1))
    } else if 0xee <= b && b <= 0xef {
        Some((0x80, 0xbf, 1))
    } else if b == 0xf0 {
        Some((0x90, 0xbf, 2))
    } else if 0xf1 <= b && b <= 0xf3 {
        Some((0x80, 0xbf, 2))
    } else if b == 0xf4 {
        Some((0x80, 0x8f, 2))
    } else {
        None
    }
}

/// Advances past whitespace.
pub fn skip_ws(s: &[u8], i: usize) -> (j: usize)
    requires
        i <= s@.len(),
    ensures
        j as int == skip_ws_s(s@, i as int),
        i <= j <= s@.len(),
{
    let mut j = i;
    loop
        invariant
            i <= j <= s@.len(),
            skip_ws_s(s@, i as int) == skip_ws_s(s@, j as int),
        decreases s@.len() - j,
    {
        if j < s.len() && is_ws_x(s[j]) {
            j = j + 1;
        } else {
            return j;
        }
    }
}

/// Appends the UTF-8 encoding of one scalar.
fn push_scalar(acc: &mut Vec<u8>, v: u32)
    requires
        vstd::utf8::is_scalar(v),
    ensures
        final(acc)@ == old(acc)@ + encode_scalar(v),
{
    if v <= 0x7f {
        acc.push((v & 0x7f) as u8);
    } else if v <= 0x7ff {
        acc.push(0xc0 | ((v >> 6) & 0x1f) as u8);
        acc.push(0x80 | (v & 0x3f) as u8);
    } else if v <= 0xffff {
        acc.push(0xe0 | ((v >> 12) & 0x0f) as u8);
        acc.push(0x80 | ((v >> 6) & 0x3f) as u8);
        acc.push(0x80 | (v & 0x3f) as u8);
    } else {
        acc.push(0xf0 | ((v >> 18) & 0x07) as u8);
        acc.push(0x80 | ((v >> 12) & 0x3f) as u8);
        acc.push(0x80 | ((v >> 6) & 0x3f) as u8);
        acc.push(0x80 | (v & 0x3f) as u8);
    }
    proof {
        assert(acc@ =~= old(acc)@ + encode_scalar(v));
    }
}

/// Scans a string body from just after its opening quote, as [`scan_str`]
/// defines it.
#[verifier::rlimit(60)]
pub fn scan_str_x(s: &[u8], start: usize) -> (r: Option<(Vec<u8>, usize)>)
    requires
        start <= s@.len(),
    ensures
        (match scan_str(s@, start as int) {
            None => r is None,
            Some(p) => r matches Some(q) && q.0@ == p.0 && q.1 as int == p.1 && start < q.1
                <= s@.len(),
        }),
{
    let mut acc: Vec<u8> = Vec::new();
    let mut i = start;
    loop
        invariant
            start <= i <= s@.len(),
            (match scan_str(s@, i as int) {
                None => scan_str(s@, start as int) is None,
                Some(p) => scan_str(s@, start as int) == Some((acc@ + p.0, p.1)),
            }),
        decreases s@.len() - i,
    {
        if i >= s.len() {
            return None;
        }
        let b = s[i];
        if b == QUOTE {
            proof {
                assert(acc@ + Seq::<u8>::empty() =~= acc@);
            }
            return Some((acc, i + 1));
        } else if b == BSLASH {
            if s.len() - i < 2 {
                return None;
            }
            let e = s[i + 1];
            if e == 0x75 {
                match hex4_x(s, i + 2) {
                    None => {
                        proof {
                            assert(scan_str_unicode(s@, i as int) is None);
                            assert(scan_str(s@, i as int) is None);
                        }
                        return None;
                    },
                    Some(cp) => {
                        if 0xd800 <= cp && cp < 0xdc00 {
                            if !(s.len() - i >= 8 && s[i + 6] == BSLASH && s[i + 7] == 0x75) {
                                return None;
                            }
                            match hex4_x(s, i + 8) {
                                None => {
                                    return None;
                                },
                                Some(lo) => {
                                    if !(0xdc00 <= lo && lo < 0xe000) {
                                        return None;
                                    }
                                    let scalar: u32 = 0x10000 + (cp - 0xd800) * 0x400 + (lo
                                        - 0xdc00);
                                    let ghost prev = acc@;
                                    push_scalar(&mut acc, scalar);
                                    proof {
                                        if let Some(p) = scan_str(s@, i + 12) {
                                            assert(prev + (encode_scalar(scalar) + p.0) =~= acc@
                                                + p.0);
                                        }
                                    }
                                    i = i + 12;
                                },
                            }
                        } else if 0xdc00 <= cp && cp < 0xe000 {
                            return None;
                        } else {
                            let ghost prev = acc@;
                            push_scalar(&mut acc, cp);
                            proof {
                                if let Some(p) = scan_str(s@, i + 6) {
                                    assert(prev + (encode_scalar(cp) + p.0) =~= acc@ + p.0);
                                }
                            }
                            i = i + 6;
                        }
                    },
                }
            } else {
                match simple_escape_x(e) {
                    None => {
                        return None;
                    },
                    Some(d) => {
                        let ghost prev = acc@;
                        acc.push(d);
                        proof {
                            if let Some(p) = scan_str(s@, i + 2) {
                                assert(prev + (seq![d] + p.0) =~= acc@ + p.0);
                            }
                        }
                        i = i + 2;
                    },
                }
            }
        } else if b < 0x20 {
            return None;
        } else if b < 0x80 {
            let ghost prev = acc@;
            acc.push(b);
            proof {
                if let Some(p) = scan_str(s@, i + 1) {
                    assert(prev + (seq![b] + p.0) =~= acc@ + p.0);
                }
            }
            i = i + 1;
        } else {
            match utf8_lead_x(b) {
                None => {
                    return None;
                },
                Some((lo, hi, more)) => {
                    let n: usize = 2 + (more as usize);
                    if s.len() - i < n {
                        return None;
                    }
                    let b1 = s[i + 1];
                    if !(lo <= b1 && b1 <= hi) {
                        return None;
                    }
                    if more >= 1 {
                        let b2 = s[i + 2];
                        if !(0x80 <= b2 && b2 <= 0xbf) {
                            return None;
                        }
                    }
                    if more >= 2 {
                        let b3 = s[i + 3];
                        if !(0x80 <= b3 && b3 <= 0xbf) {
                            return None;
                        }
                    }
                    let ghost prev = acc@;
                    acc.push(b);
                    acc.push(b1);
                    if more >= 1 {
                        acc.push(s[i + 2]);
                    }
                    if more >= 2 {
                        acc.push(s[i + 3]);
                    }
                    proof {
                        assert(acc@ =~= prev + s@.subrange(i as int, i + 2 + more));
                        if let Some(p) = scan_str(s@, i + 2 + more) {
                            assert(prev + (s@.subrange(i as int, i + 2 + more) + p.0) =~= acc@
                                + p.0);
                        }
                    }
                    i = i + n;
                },
            }
        }
    }
}

/// The byte at position `k` of the selected literal.
fn lit_byte_x(which: u8, k: u8) -> (r: u8)
    ensures
        r == lit_byte(which, k),
{
    if which == 0 {
        if k == 0 {
            0x74
        } else if k == 1 {
            0x72
        } else if k == 2 {
            0x75
        } else if k == 3 {
            0x65
        } else {
            0
        }
    } else if which == 1 {
        if k == 0 {
            0x66
        } else if k == 1 {
            0x61
        } else if k == 2 {
            0x6c
        } else if k == 3 {
            0x73
        } else if k == 4 {
            0x65
        } else {
            0
        }
    } else {
        if k == 0 {
            0x6e
        } else if k == 1 {
            0x75
        } else if k == 2 {
            0x6c
        } else if k == 3 {
            0x6c
        } else {
            0
        }
    }
}

/// True when byte `b` can extend a number that stands in state `st`.
fn num_continues(st: ScanState, b: u8) -> (r: bool)
    requires
        is_num_end(st),
    ensures
        (st == ScanState::NumZero ==> r == (b == 0x2e || b == 0x65 || b == 0x45)),
        (st == ScanState::NumInt ==> r == (is_digit(b) || b == 0x2e || b == 0x65 || b == 0x45)),
        (st == ScanState::NumFrac ==> r == (is_digit(b) || b == 0x65 || b == 0x45)),
        (st == ScanState::NumExpDigits ==> r == is_digit(b)),
{
    match st {
        ScanState::NumZero => b == 0x2e || b == 0x65 || b == 0x45,
        ScanState::NumInt => is_digit_x(b) || b == 0x2e || b == 0x65 || b == 0x45,
        ScanState::NumFrac => is_digit_x(b) || b == 0x65 || b == 0x45,
        _ => is_digit_x(b),
    }
}

/// Walks one whole value starting at `start`, as [`scan_value_s`] defines
/// it, and yields the position just past it.
pub fn scan_value_x(s: &[u8], start: usize) -> (r: Option<usize>)
    requires
        start <= s@.len(),
    ensures
        (match scan_value_s(s@, start as int) {
            None => r is None,
            Some(e) => r matches Some(j) && j as int == e && start < j <= s@.len(),
        }),
{
    let mut i = start;
    let mut st = ScanState::Value;
    let mut stack: Vec<bool> = Vec::new();
    loop
        invariant
            start <= i <= s@.len(),
            scan_value_s(s@, start as int) == scan_from(s@, i as int, st, stack@),
            i == start ==> st == ScanState::Value,
            (match st {
                ScanState::Literal(w, k) => 1 <= k && k < lit_len(w),
                _ => true,
            }),
        decreases s@.len() - i,
    {
        if i >= s.len() {
            let done = stack.len() == 0 && matches!(
                st,
                ScanState::NumZero | ScanState::NumInt | ScanState::NumFrac
                    | ScanState::NumExpDigits,
            );
            if done {
                return Some(i);
            } else {
                return None;
            }
        }
        let b = s[i];
        // A number's end is found at the first byte that cannot extend it:
        // that byte is re-read in the after-value state.
        if matches!(
            st,
            ScanState::NumZero | ScanState::NumInt | ScanState::NumFrac | ScanState::NumExpDigits,
        ) && !num_continues(st, b) {
            if stack.len() == 0 {
                return Some(i);
            }
            proof {
                assert(scan_from(s@, i as int, st, stack@) == scan_from(
                    s@,
                    i as int,
                    ScanState::After,
                    stack@,
                ));
            }
            st = ScanState::After;
        }
        // The first byte of an array's first element is re-read in the
        // value state.
        if matches!(st, ScanState::FirstElem) && !is_ws_x(b) && b != RBRACK {
            proof {
                assert(scan_from(s@, i as int, ScanState::FirstElem, stack@) == scan_from(
                    s@,
                    i as int,
                    ScanState::Value,
                    stack@,
                ));
            }
            st = ScanState::Value;
        }
        match st {
            ScanState::Value => {
                if is_ws_x(b) {
                    i = i + 1;
                } else if b == LBRACE {
                    stack.push(true);
                    st = ScanState::FirstKey;
                    i = i + 1;
                } else if b == LBRACK {
                    stack.push(false);
                    st = ScanState::FirstElem;
                    i = i + 1;
                } else if b == QUOTE {
                    st = ScanState::Text(false);
                    i = i + 1;
                } else if b == 0x2d {
                    st = ScanState::NumMinus;
                    i = i + 1;
                } else if b == 0x30 {
                    st = ScanState::NumZero;
                    i = i + 1;
                } else if is_digit_x(b) {
                    st = ScanState::NumInt;
                    i = i + 1;
                } else if b == 0x74 {
                    st = ScanState::Literal(0, 1);
                    i = i + 1;
                } else if b == 0x66 {
                    st = ScanState::Literal(1, 1);
                    i = i + 1;
                } else if b == 0x6e {
                    st = ScanState::Literal(2, 1);
                    i = i + 1;
                } else {
                    return None;
                }
            },
            ScanState::Text(key) => {
                if b == QUOTE {
                    if key {
                        st = ScanState::Colon;
                        i = i + 1;
                    } else if stack.len() == 0 {
                        return Some(i + 1);
                    } else {
                        st = ScanState::After;
                        i = i + 1;
                    }
                } else if b == BSLASH {
                    st = ScanState::TextEscape(key);
                    i = i + 1;
                } else if b < 0x20 {
                    return None;
                } else if b < 0x80 {
                    st = ScanState::Text(key);
                    i = i + 1;
                } else {
                    match utf8_lead_x(b) {
                        None => {
                            return None;
                        },
                        Some((lo, hi, more)) => {
                            st = ScanState::TextBytes(key, lo, hi, more);
                            i = i + 1;
                        },
                    }
                }
            },
            ScanState::TextBytes(key, lo, hi, more) => {
                if lo <= b && b <= hi {
                    if more == 0 {
                        st = ScanState::Text(key);
                    } else {
                        st = ScanState::TextBytes(key, 0x80, 0xbf, more - 1);
                    }
                    i = i + 1;
                } else {
                    return None;
                }
            },
            ScanState::TextEscape(key) => {
                if b == 0x75 {
                    st = ScanState::TextHex(key, 4);
                    i = i + 1;
                } else if simple_escape_x(b).is_some() {
                    st = ScanState::Text(key);
                    i = i + 1;
                } else {
                    return None;
                }
            },
            ScanState::TextHex(key, n) => {
                if hex_val_x(b).is_some() {
                    if n <= 1 {
                        st = ScanState::Text(key);
                    } else {
                        st = ScanState::TextHex(key, n - 1);
                    }
                    i = i + 1;
                } else {
                    return None;
                }
            },
            ScanState::NumMinus => {
                if b == 0x30 {
                    st = ScanState::NumZero;
                    i = i + 1;
                } else if is_digit_x(b) {
                    st = ScanState::NumInt;
                    i = i + 1;
                } else {
                    return None;
                }
            },
            ScanState::NumZero => {
                if b == 0x2e {
                    st = ScanState::NumDot;
                    i = i + 1;
                } else {
                    st = ScanState::NumExp;
                    i = i + 1;
                }
            },
            ScanState::NumInt => {
                if is_digit_x(b) {
                    i = i + 1;
                } else if b == 0x2e {
                    st = ScanState::NumDot;
                    i = i + 1;
                } else {
                    st = ScanState::NumExp;
                    i = i + 1;
                }
            },
            ScanState::NumDot => {
                if is_digit_x(b) {
                    st = ScanState::NumFrac;
                    i = i + 1;
                } else {
                    return None;
                }
            },
            ScanState::NumFrac => {
                if is_digit_x(b) {
                    i = i + 1;
                } else {
                    st = ScanState::NumExp;
                    i = i + 1;
                }
            },
            ScanState::NumExp => {
                if b == 0x2b || b == 0x2d {
                    st = ScanState::NumExpSign;
                    i = i + 1;
                } else if is_digit_x(b) {
                    st = ScanState::NumExpDigits;
                    i = i + 1;
                } else {
                    return None;
                }
            },
            ScanState::NumExpSign => {
                if is_digit_x(b) {
                    st = ScanState::NumExpDigits;
                    i = i + 1;
                } else {
                    return None;
                }
            },
            ScanState::NumExpDigits => {
                if is_digit_x(b) {
                    i = i + 1;
                } else {
                    return None;
                }
            },
            ScanState::Literal(which, k) => {
                if b == lit_byte_x(which, k) {
                    let lit_n: u8 = if which == 1 {
                        5
                    } else {
                        4
                    };
                    if k + 1 == lit_n {
                        if stack.len() == 0 {
                            return Some(i + 1);
                        }
                        st = ScanState::After;
                        i = i + 1;
                    } else {
                        st = ScanState::Literal(which, k + 1);
                        i = i + 1;
                    }
                } else {
                    return None;
                }
            },
            ScanState::After => {
                if is_ws_x(b) {
                    i = i + 1;
                } else if b == COMMA && stack.len() > 0 {
                    if stack[stack.len() - 1] {
                        st = ScanState::NextKey;
                    } else {
                        st = ScanState::Value;
                    }
                    i = i + 1;
                } else if b == RBRACE && stack.len() > 0 && stack[stack.len() - 1] {
                    if stack.len() == 1 {
                        return Some(i + 1);
                    }
                    let _ = stack.pop();
                    st = ScanState::After;
                    i = i + 1;
                } else if b == RBRACK && stack.len() > 0 && !stack[stack.len() - 1] {
                    if stack.len() == 1 {
                        return Some(i + 1);
                    }
                    let _ = stack.pop();
                    st = ScanState::After;
                    i = i + 1;
                } else {
                    return None;
                }
            },
            ScanState::FirstKey => {
                if is_ws_x(b) {
                    i = i + 1;
                } else if b == QUOTE {
                    st = ScanState::Text(true);
                    i = i + 1;
                } else if b == RBRACE && stack.len() > 0 && stack[stack.len() - 1] {
                    if stack.len() == 1 {
                        return Some(i + 1);
                    }
                    let _ = stack.pop();
                    st = ScanState::After;
                    i = i + 1;
                } else {
                    return None;
                }
            },
            ScanState::NextKey => {
                if is_ws_x(b) {
                    i = i + 1;
                } else if b == QUOTE {
                    st = ScanState::Text(true);
                    i = i + 1;
                } else {
                    return None;
                }
            },
            ScanState::Colon => {
                if is_ws_x(b) {
                    i = i + 1;
                } else if b == COLON {
                    st = ScanState::Value;
                    i = i + 1;
                } else {
                    return None;
                }
            },
            ScanState::FirstElem => {
                if is_ws_x(b) {
                    i = i + 1;
                } else {
                    // Only a closing bracket reaches this arm unnormalized.
                    if stack.len() > 0 && !stack[stack.len() - 1] {
                        if stack.len() == 1 {
                            return Some(i + 1);
                        }
                        let _ = stack.pop();
                        st = ScanState::After;
                        i = i + 1;
                    } else {
                        proof {
                            assert(scan_from(s@, i as int, ScanState::FirstElem, stack@)
                                == scan_from(s@, i as int, ScanState::Value, stack@));
                        }
                        return None;
                    }
                }
            },
        }
    }
}

} // verus!
