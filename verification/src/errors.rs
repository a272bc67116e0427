//! The error taxonomy the client reports to its callers.

use vstd::prelude::*;
use vstd::string::StringExecFns;
use vstd::utf8::{decode_utf8, valid_utf8};

verus! {

/// Relies on `String::from_utf8`: it accepts exactly the byte sequences
/// that are valid UTF-8 and yields the characters those bytes encode.
#[verifier::external_body]
pub(crate) fn string_from_utf8(bytes: Vec<u8>) -> (r: Option<String>)
    ensures
        r matches Some(st) ==> valid_utf8(bytes@) && st@ == decode_utf8(bytes@),
        r is None ==> !valid_utf8(bytes@),
{
    String::from_utf8(bytes).ok()
}

/// A single error entry as reported by the server, carrying one
/// human-readable message.
#[derive(Debug, Clone)]
pub struct GraphQLError {
    pub message: String,
}

/// The decoded error envelope: an optional machine-readable code and the
/// ordered list of error entries.
#[derive(Debug, Clone)]
pub struct GraphQLErrors {
    pub code: Option<String>,
    pub errors: Vec<GraphQLError>,
}

/// An error response: the transport status code together with the decoded
/// error envelope it arrived with.
#[derive(Debug, Clone)]
pub struct ResponseError {
    pub status_code: u16,
    pub code: Option<String>,
    pub errors: Vec<GraphQLError>,
}

/// Every failure the client reports, kept as distinct classifications so a
/// caller can choose its own policy per kind.
#[derive(Debug)]
pub enum Error {
    /// A value that could not be read as (or written to) JSON of the
    /// expected shape, on a response whose status denoted success.
    SerializationError(String),
    /// A response whose status denoted failure and whose body carried no
    /// usable envelope; only the status code remains.
    InvalidHTTPStatusCodeError(u16),
    /// An error envelope explicitly reported by the server.
    ResponseError(ResponseError),
    /// A transport-level failure: the request could not be sent or no
    /// response arrived.
    Other(String),
}

/// The mathematical content of an optional code: the character sequence, if
/// one is present.
pub open spec fn code_model(code: Option<String>) -> Option<Seq<char>> {
    match code {
        Some(c) => Some(c@),
        None => None,
    }
}

/// The mathematical content of an entry list: the messages, in order.
pub open spec fn messages_model(errors: Seq<GraphQLError>) -> Seq<Seq<char>> {
    errors.map(|i: int, e: GraphQLError| e.message@)
}

impl GraphQLError {
    /// The text shown for this entry: exactly its message.
    pub fn to_display_string(&self) -> (r: String)
        ensures
            r@ == self.message@,
    {
        self.message.clone()
    }
}

/// The ASCII bytes of `n` written in decimal.
pub open spec fn dec_digits(n: nat) -> Seq<u8>
    decreases n,
{
    if n < 10 {
        seq![(0x30 + n) as u8]
    } else {
        dec_digits(n / 10).push((0x30 + (n % 10)) as u8)
    }
}

/// The characters of `n` written in decimal.
pub open spec fn dec_chars(n: nat) -> Seq<char> {
    dec_digits(n).map(|k: int, b: u8| b as char)
}

/// The messages joined with a comma and a space between neighbours.
pub open spec fn joined_messages(ms: Seq<Seq<char>>) -> Seq<char>
    decreases ms.len(),
{
    if ms.len() == 0 {
        Seq::empty()
    } else if ms.len() == 1 {
        ms[0]
    } else {
        joined_messages(ms.drop_last()) + ", "@ + ms.last()
    }
}

/// The display text of a response error: the status code, then the
/// messages when there are any.
pub open spec fn response_error_text(status: u16, messages: Seq<Seq<char>>) -> Seq<char> {
    let head = "status code "@ + dec_chars(status as nat);
    if messages.len() == 0 {
        head
    } else {
        head + ": "@ + joined_messages(messages)
    }
}

/// Decimal digits are ASCII.
proof fn lemma_dec_digits_ascii(n: nat)
    ensures
        forall|k: int| 0 <= k < dec_digits(n).len() ==> dec_digits(n)[k] < 0x80,
    decreases n,
{
    if n >= 10 {
        lemma_dec_digits_ascii(n / 10);
        let pre = dec_digits(n / 10);
        let b = (0x30 + (n % 10)) as u8;
        assert forall|k: int| 0 <= k < dec_digits(n).len() implies dec_digits(n)[k] < 0x80 by {
            if k < pre.len() {
                assert(pre.push(b)[k] == pre[k]);
            } else {
                assert(pre.push(b)[k] == b);
            }
        }
    }
}

/// A sequence of ASCII bytes is valid UTF-8 and decodes to one character
/// per byte.
proof fn lemma_ascii_decode(bytes: Seq<u8>)
    requires
        forall|k: int| 0 <= k < bytes.len() ==> bytes[k] < 0x80,
    ensures
        valid_utf8(bytes),
        decode_utf8(bytes) == bytes.map(|k: int, b: u8| b as char),
    decreases bytes.len(),
{
    if bytes.len() > 0 {
        let b = bytes[0];
        assert(b & 0x7f == b) by (bit_vector)
            requires
                b < 0x80,
        ;
        assert(vstd::utf8::length_of_first_scalar(bytes) == 1);
        let rest = vstd::utf8::pop_first_scalar(bytes);
        assert(rest =~= bytes.subrange(1, bytes.len() as int));
        lemma_ascii_decode(rest);
        assert(decode_utf8(bytes) =~= bytes.map(|k: int, b: u8| b as char));
    } else {
        assert(decode_utf8(bytes) =~= bytes.map(|k: int, b: u8| b as char));
    }
}

/// Appends the decimal digits of `n`.
fn push_dec(digits: &mut Vec<u8>, n: u16)
    ensures
        final(digits)@ == old(digits)@ + dec_digits(n as nat),
    decreases n,
{
    if n < 10 {
        digits.push(0x30 + (n as u8));
        proof {
            assert(digits@ =~= old(digits)@ + dec_digits(n as nat));
        }
    } else {
        push_dec(digits, n / 10);
        digits.push(0x30 + ((n % 10) as u8));
        proof {
            assert(digits@ =~= old(digits)@ + dec_digits(n as nat));
        }
    }
}

/// The decimal text of a status code.
fn status_code_string(n: u16) -> (r: String)
    ensures
        r@ == dec_chars(n as nat),
{
    let mut digits: Vec<u8> = Vec::new();
    push_dec(&mut digits, n);
    proof {
        lemma_dec_digits_ascii(n as nat);
        lemma_ascii_decode(digits@);
    }
    match string_from_utf8(digits) {
        Some(st) => st,
        None => {
            // ASCII bytes are always valid UTF-8, so this arm cannot run.
            proof {
                assert(false);
            }
            String::new()
        },
    }
}

impl Error {
    /// The text each failure kind shows.  A transport failure is shown as
    /// its own message; a structured error announces itself and leaves its
    /// detail to [`ResponseError::to_display_string`].
    pub open spec fn display_text(&self) -> Seq<char> {
        match self {
            Error::SerializationError(d) => "error serializing data: "@ + d@,
            Error::InvalidHTTPStatusCodeError(c) => "invalid HTTP response status code "@
                + dec_chars(*c as nat),
            Error::ResponseError(e) => "GraphQL error"@,
            Error::Other(m) => m@,
        }
    }

    /// The text shown for this failure: exactly [`Error::display_text`].
    pub fn to_display_string(&self) -> (r: String)
        ensures
            r@ == self.display_text(),
    {
        match self {
            Error::SerializationError(d) => {
                let mut out = String::from_str("error serializing data: ");
                out.append(d.as_str());
                out
            },
            Error::InvalidHTTPStatusCodeError(c) => {
                let mut out = String::from_str("invalid HTTP response status code ");
                let num = status_code_string(*c);
                out.append(num.as_str());
                out
            },
            Error::ResponseError(_e) => String::from_str("GraphQL error"),
            Error::Other(m) => m.clone(),
        }
    }
}

impl ResponseError {
    /// The text shown for this error: the status code, and the messages
    /// when there are any, as [`response_error_text`] lays it out.
    pub fn to_display_string(&self) -> (r: String)
        ensures
            r@ == response_error_text(self.status_code, messages_model(self.errors@)),
    {
        let mut out = String::from_str("status code ");
        let num = status_code_string(self.status_code);
        out.append(num.as_str());
        let ghost head = "status code "@ + dec_chars(self.status_code as nat);
        if self.errors.len() == 0 {
            proof {
                assert(messages_model(self.errors@).len() == 0);
            }
            return out;
        }
        out.append(": ");
        let ghost msgs = messages_model(self.errors@);
        let mut k: usize = 0;
        while k < self.errors.len()
            invariant
                1 <= self.errors@.len(),
                msgs == messages_model(self.errors@),
                msgs.len() == self.errors@.len(),
                k <= self.errors@.len(),
                head == "status code "@ + dec_chars(self.status_code as nat),
                k == 0 ==> out@ == head + ": "@,
                k >= 1 ==> out@ == head + ": "@ + joined_messages(msgs.subrange(0, k as int)),
            decreases self.errors@.len() - k,
        {
            if k > 0 {
                out.append(", ");
            }
            let msg: &GraphQLError = &self.errors[k];
            out.append(msg.message.as_str());
            proof {
                assert(msgs[k as int] == self.errors@[k as int].message@);
                if k == 0 {
                    assert(joined_messages(msgs.subrange(0, 1)) == msgs.subrange(0, 1)[0]);
                    assert(msgs.subrange(0, 1)[0] == msgs[0]);
                } else {
                    let pre = msgs.subrange(0, k as int);
                    let cur = msgs.subrange(0, k + 1);
                    assert(cur.drop_last() =~= pre);
                    assert(cur.last() == msgs[k as int]);
                    assert(cur.len() >= 2);
                    assert(joined_messages(cur) == joined_messages(pre) + ", "@ + msgs[
                        k as int
                    ]);
                }
            }
            k = k + 1;
        }
        proof {
            assert(msgs.subrange(0, msgs.len() as int) =~= msgs);
        }
        out
    }
}

} // verus!
