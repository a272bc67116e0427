//! The response envelope: its wire shape and its decoder.
//!
//! A response body is a single JSON object.  A `data` member makes it the
//! success shape and its value — left opaque — is the payload; otherwise an
//! `errors` member (an array of entry objects, each with a string `message`)
//! together with an optional string-or-null `code` member makes it the error
//! shape.  Anything else, including bytes that are not a JSON object at all,
//! is malformed.  The bytes alone select the shape; no knowledge of the
//! expected payload is needed.

use vstd::prelude::*;
use vstd::slice::slice_to_vec;
use vstd::utf8::{decode_utf8, valid_utf8};

use crate::errors::{code_model, messages_model, GraphQLError, GraphQLErrors};
use crate::json::{
    scan_str, scan_str_x, scan_value_s, scan_value_x, skip_ws, skip_ws_s, COLON, COMMA, LBRACE,
    LBRACK, QUOTE, RBRACE, RBRACK,
};

verus! {

/// One scanned object member: the decoded key bytes and the extent of its
/// value (whitespace trimmed in front, end just past the value).
pub struct JsonMember {
    /// The member's key, escapes resolved.
    pub key: Seq<u8>,
    /// First byte of the member's value.
    pub val_start: int,
    /// Position just past the member's value.
    pub val_end: int,
}

/// The key bytes of the success member.
pub open spec fn key_data() -> Seq<u8> {
    seq![0x64, 0x61, 0x74, 0x61]
}

/// The key bytes of the error-code member.
pub open spec fn key_code() -> Seq<u8> {
    seq![0x63, 0x6f, 0x64, 0x65]
}

/// The key bytes of the error-list member.
pub open spec fn key_errors() -> Seq<u8> {
    seq![0x65, 0x72, 0x72, 0x6f, 0x72, 0x73]
}

/// The key bytes of an entry's message member.
pub open spec fn key_message() -> Seq<u8> {
    seq![0x6d, 0x65, 0x73, 0x73, 0x61, 0x67, 0x65]
}

/// Scans the members of an object from the position just after its opening
/// brace: the member list and the position just past the closing brace.
/// `fuel` merely bounds the recursion; `s.len() + 1` always suffices, since
/// every member moves the position strictly forward.
pub open spec fn scan_members(s: Seq<u8>, i: int, fuel: nat) -> Option<(Seq<JsonMember>, int)>
    decreases fuel,
{
    let j = skip_ws_s(s, i);
    if j < s.len() && s[j] == RBRACE {
        Some((Seq::empty(), j + 1))
    } else {
        scan_member_list(s, i, fuel)
    }
}

/// Scans a non-empty member list from `i` (just after the brace or a
/// comma) up to and past the closing brace.
pub open spec fn scan_member_list(s: Seq<u8>, i: int, fuel: nat) -> Option<(Seq<JsonMember>, int)>
    decreases fuel,
{
    let j = skip_ws_s(s, i);
    if !(j < s.len() && s[j] == QUOTE) {
        None
    } else {
        match scan_str(s, j + 1) {
            None => None,
            Some((key, k)) => {
                let c = skip_ws_s(s, k);
                if !(c < s.len() && s[c] == COLON) {
                    None
                } else {
                    let vs = skip_ws_s(s, c + 1);
                    match scan_value_s(s, vs) {
                        None => None,
                        Some(ve) => {
                            let m = JsonMember { key, val_start: vs, val_end: ve };
                            let t = skip_ws_s(s, ve);
                            if t < s.len() && s[t] == RBRACE {
                                Some((seq![m], t + 1))
                            } else if t < s.len() && s[t] == COMMA && fuel > 0 {
                                match scan_member_list(s, t + 1, (fuel - 1) as nat) {
                                    None => None,
                                    Some((rest, e)) => Some((seq![m] + rest, e)),
                                }
                            } else {
                                None
                            }
                        },
                    }
                }
            },
        }
    }
}

/// Scans the elements of an array from the position just after its opening
/// bracket: the extent of each element and the position just past the
/// closing bracket.  `fuel` is as in [`scan_members`].
pub open spec fn scan_elems(s: Seq<u8>, i: int, fuel: nat) -> Option<(Seq<(int, int)>, int)>
    decreases fuel,
{
    let j = skip_ws_s(s, i);
    if j < s.len() && s[j] == RBRACK {
        Some((Seq::empty(), j + 1))
    } else {
        scan_elem_list(s, i, fuel)
    }
}

/// Scans a non-empty element list from `i` (just after the bracket or a
/// comma) up to and past the closing bracket.
pub open spec fn scan_elem_list(s: Seq<u8>, i: int, fuel: nat) -> Option<(Seq<(int, int)>, int)>
    decreases fuel,
{
    let vs = skip_ws_s(s, i);
    match scan_value_s(s, vs) {
        None => None,
        Some(ve) => {
            let t = skip_ws_s(s, ve);
            if t < s.len() && s[t] == RBRACK {
                Some((seq![(vs, ve)], t + 1))
            } else if t < s.len() && s[t] == COMMA && fuel > 0 {
                match scan_elem_list(s, t + 1, (fuel - 1) as nat) {
                    None => None,
                    Some((rest, e)) => Some((seq![(vs, ve)] + rest, e)),
                }
            } else {
                None
            }
        },
    }
}

/// The member list of the body, when the whole body is exactly one JSON
/// object with nothing but whitespace around it.
pub open spec fn scan_top_object(s: Seq<u8>) -> Option<Seq<JsonMember>> {
    let j = skip_ws_s(s, 0);
    if j < s.len() && s[j] == LBRACE {
        match scan_members(s, j + 1, (s.len() + 1) as nat) {
            None => None,
            Some((ms, e)) => {
                if skip_ws_s(s, e) == s.len() {
                    Some(ms)
                } else {
                    None
                }
            },
        }
    } else {
        None
    }
}

/// How often `key` occurs among the members.
pub open spec fn count_key(ms: Seq<JsonMember>, key: Seq<u8>) -> int
    decreases ms.len(),
{
    if ms.len() == 0 {
        0
    } else {
        count_key(ms.drop_last(), key) + if ms.last().key == key {
            1int
        } else {
            0int
        }
    }
}

/// The first member carrying `key`, if any.
pub open spec fn first_key(ms: Seq<JsonMember>, key: Seq<u8>) -> Option<JsonMember>
    decreases ms.len(),
{
    if ms.len() == 0 {
        None
    } else {
        match first_key(ms.drop_last(), key) {
            Some(m) => Some(m),
            None => if ms.last().key == key {
                Some(ms.last())
            } else {
                None
            },
        }
    }
}

/// The characters of a string value starting at `vs`, when the value there
/// is a string whose decoded content is valid UTF-8.
pub open spec fn string_value_of(s: Seq<u8>, vs: int) -> Option<Seq<char>> {
    if 0 <= vs < s.len() && s[vs] == QUOTE {
        match scan_str(s, vs + 1) {
            Some((content, e)) => if valid_utf8(content) {
                Some(decode_utf8(content))
            } else {
                None
            },
            None => None,
        }
    } else {
        None
    }
}

/// The code member's content: absent for a `null` value, present for a
/// string value, and unusable for anything else.
pub open spec fn code_value_of(s: Seq<u8>, vs: int) -> Option<Option<Seq<char>>> {
    if 0 <= vs < s.len() && s[vs] == 0x6e {  // a validated value starting with n is null
        Some(None)
    } else {
        match string_value_of(s, vs) {
            Some(chars) => Some(Some(chars)),
            None => None,
        }
    }
}

/// The message of one error entry: the entry must be an object with exactly
/// one `message` member holding a string.
pub open spec fn entry_message_of(s: Seq<u8>, es: int) -> Option<Seq<char>> {
    if 0 <= es < s.len() && s[es] == LBRACE {
        match scan_members(s, es + 1, (s.len() + 1) as nat) {
            None => None,
            Some((ems, e)) => {
                if count_key(ems, key_message()) == 1 {
                    string_value_of(s, first_key(ems, key_message()).unwrap().val_start)
                } else {
                    None
                }
            },
        }
    } else {
        None
    }
}

/// The messages of the element list `exts`, in order, when every element
/// yields one.
pub open spec fn messages_of_elems(s: Seq<u8>, exts: Seq<(int, int)>) -> Option<Seq<Seq<char>>>
    decreases exts.len(),
{
    if exts.len() == 0 {
        Some(Seq::empty())
    } else {
        match messages_of_elems(s, exts.drop_last()) {
            None => None,
            Some(front) => match entry_message_of(s, exts.last().0) {
                None => None,
                Some(msg) => Some(front.push(msg)),
            },
        }
    }
}

/// The ordered messages of the error-list value starting at `vs`, which
/// must be an array of well-shaped entries.
pub open spec fn messages_value_of(s: Seq<u8>, vs: int) -> Option<Seq<Seq<char>>> {
    if 0 <= vs < s.len() && s[vs] == LBRACK {
        match scan_elems(s, vs + 1, (s.len() + 1) as nat) {
            None => None,
            Some((exts, e)) => messages_of_elems(s, exts),
        }
    } else {
        None
    }
}

/// The decoded shape of a body: the success payload's raw bytes, the error
/// envelope's content, or neither.
pub enum EnvelopeModel {
    /// The success shape; holds the payload's raw bytes.
    Success(Seq<u8>),
    /// The error shape; holds the optional code and the ordered messages.
    Errs { code: Option<Seq<char>>, messages: Seq<Seq<char>> },
    /// Bytes that match neither shape.
    Malformed,
}

/// What decoding a body yields: the one place the two shapes are told
/// apart.  A `data` member selects the success shape (also when error
/// members sit beside it); otherwise exactly one `errors` member with at
/// most one `code` member selects the error shape, provided their values
/// are well formed.  Repeated occurrences of a selected key make the body
/// malformed rather than picking one of them.
pub open spec fn envelope_of(s: Seq<u8>) -> EnvelopeModel {
    match scan_top_object(s) {
        None => EnvelopeModel::Malformed,
        Some(ms) => {
            if count_key(ms, key_data()) == 1 {
                let m = first_key(ms, key_data()).unwrap();
                EnvelopeModel::Success(s.subrange(m.val_start, m.val_end))
            } else if count_key(ms, key_errors()) == 1 && count_key(ms, key_code()) <= 1 {
                let me = first_key(ms, key_errors()).unwrap();
                let code_r = if count_key(ms, key_code()) == 1 {
                    code_value_of(s, first_key(ms, key_code()).unwrap().val_start)
                } else {
                    Some(None)
                };
                match (messages_value_of(s, me.val_start), code_r) {
                    (Some(msgs), Some(c)) => EnvelopeModel::Errs { code: c, messages: msgs },
                    _ => EnvelopeModel::Malformed,
                }
            } else {
                EnvelopeModel::Malformed
            }
        },
    }
}

/// The outcome of decoding one body, generically over the payload: the
/// payload stays raw bytes for the caller to interpret.
#[derive(Debug)]
pub enum EnvelopeDecodeResult {
    /// The success shape: the raw bytes of the payload value.
    Success(Vec<u8>),
    /// The error shape, decoded.
    ErrorEnvelope(GraphQLErrors),
    /// Bytes that match neither shape.
    Malformed,
}

impl EnvelopeDecodeResult {
    /// The shape this outcome stands for.
    pub open spec fn model(&self) -> EnvelopeModel {
        match self {
            EnvelopeDecodeResult::Success(p) => EnvelopeModel::Success(p@),
            EnvelopeDecodeResult::ErrorEnvelope(g) => EnvelopeModel::Errs {
                code: code_model(g.code),
                messages: messages_model(g.errors@),
            },
            EnvelopeDecodeResult::Malformed => EnvelopeModel::Malformed,
        }
    }
}

/// Appending one member changes the key count and the first occurrence in
/// the obvious way.
proof fn lemma_push_key(ms: Seq<JsonMember>, m: JsonMember, key: Seq<u8>)
    ensures
        count_key(ms.push(m), key) == count_key(ms, key) + if m.key == key {
            1int
        } else {
            0int
        },
        first_key(ms.push(m), key) == (match first_key(ms, key) {
            Some(x) => Some(x),
            None => if m.key == key {
                Some(m)
            } else {
                None
            },
        }),
{
    assert(ms.push(m).drop_last() =~= ms);
    assert(ms.push(m).last() == m);
}

/// Key test against `data`.
fn is_key_data(key: &Vec<u8>) -> (r: bool)
    ensures
        r == (key@ == key_data()),
{
    let r = key.len() == 4 && key[0] == 0x64 && key[1] == 0x61 && key[2] == 0x74 && key[3] == 0x61;
    proof {
        if r {
            assert(key@ =~= key_data());
        }
    }
    r
}

/// Key test against `code`.
fn is_key_code(key: &Vec<u8>) -> (r: bool)
    ensures
        r == (key@ == key_code()),
{
    let r = key.len() == 4 && key[0] == 0x63 && key[1] == 0x6f && key[2] == 0x64 && key[3] == 0x65;
    proof {
        if r {
            assert(key@ =~= key_code());
        }
    }
    r
}

/// Key test against `errors`.
fn is_key_errors(key: &Vec<u8>) -> (r: bool)
    ensures
        r == (key@ == key_errors()),
{
    let r = key.len() == 6 && key[0] == 0x65 && key[1] == 0x72 && key[2] == 0x72 && key[3] == 0x6f
        && key[4] == 0x72 && key[5] == 0x73;
    proof {
        if r {
            assert(key@ =~= key_errors());
        }
    }
    r
}

/// Key test against `message`.
fn is_key_message(key: &Vec<u8>) -> (r: bool)
    ensures
        r == (key@ == key_message()),
{
    let r = key.len() == 7 && key[0] == 0x6d && key[1] == 0x65 && key[2] == 0x73 && key[3] == 0x73
        && key[4] == 0x61 && key[5] == 0x67 && key[6] == 0x65;
    proof {
        if r {
            assert(key@ =~= key_message());
        }
    }
    r
}

/// What one pass over an object's members found: for each key the envelope
/// cares about, how often it occurred and the extent of its first value.
struct MemberScan {
    /// Position just past the object's closing brace.
    end: usize,
    n_data: usize,
    data_vs: usize,
    data_ve: usize,
    n_errors: usize,
    errors_vs: usize,
    errors_ve: usize,
    n_code: usize,
    code_vs: usize,
    code_ve: usize,
    n_message: usize,
    message_vs: usize,
    message_ve: usize,
}

/// The facts [`scan_members_x`] hands back about one tracked key.
spec fn key_facts(
    s: Seq<u8>,
    ms: Seq<JsonMember>,
    key: Seq<u8>,
    n: usize,
    vs: usize,
    ve: usize,
) -> bool {
    &&& n as int == count_key(ms, key)
    &&& count_key(ms, key) >= 1 ==> (first_key(ms, key) matches Some(m) && m.val_start == vs as int
        && m.val_end == ve as int && vs <= ve <= s.len())
    &&& count_key(ms, key) == 0 ==> first_key(ms, key) is None
}

/// Walks an object's members from just after the opening brace, as
/// [`scan_members`] defines them, summarising the keys the envelope reads.
fn scan_members_x(s: &[u8], i: usize) -> (r: Option<(MemberScan, Ghost<Seq<JsonMember>>)>)
    requires
        1 <= i <= s@.len(),
    ensures
        (match scan_members(s@, i as int, (s@.len() + 1) as nat) {
            None => r is None,
            Some(p) => r matches Some((sm, g)) && g@ == p.0 && sm.end as int == p.1 && sm.end
                <= s@.len() && key_facts(s@, p.0, key_data(), sm.n_data, sm.data_vs, sm.data_ve)
                && key_facts(s@, p.0, key_errors(), sm.n_errors, sm.errors_vs, sm.errors_ve)
                && key_facts(s@, p.0, key_code(), sm.n_code, sm.code_vs, sm.code_ve)
                && key_facts(s@, p.0, key_message(), sm.n_message, sm.message_vs, sm.message_ve),
        }),
{
    let ghost fuel0: nat = (s@.len() + 1) as nat;
    let mut sm = MemberScan {
        end: 0,
        n_data: 0,
        data_vs: 0,
        data_ve: 0,
        n_errors: 0,
        errors_vs: 0,
        errors_ve: 0,
        n_code: 0,
        code_vs: 0,
        code_ve: 0,
        n_message: 0,
        message_vs: 0,
        message_ve: 0,
    };
    let j0 = skip_ws(s, i);
    if j0 < s.len() && s[j0] == RBRACE {
        sm.end = j0 + 1;
        return Some((sm, Ghost(Seq::empty())));
    }
    let mut p = i;
    let ghost mut f: nat = fuel0;
    let ghost mut processed: Seq<JsonMember> = Seq::empty();
    proof {
        if let Some(q) = scan_member_list(s@, i as int, fuel0) {
            assert(Seq::<JsonMember>::empty() + q.0 =~= q.0);
        }
    }
    loop
        invariant
            1 <= i <= p <= s@.len(),
            fuel0 == (s@.len() + 1) as nat,
            f >= s@.len() - p + 1,
            processed.len() + i <= p,
            sm.n_data <= processed.len(),
            sm.n_errors <= processed.len(),
            sm.n_code <= processed.len(),
            sm.n_message <= processed.len(),
            (match scan_member_list(s@, p as int, f) {
                None => scan_members(s@, i as int, fuel0) is None,
                Some(q) => scan_members(s@, i as int, fuel0) == Some((processed + q.0, q.1)),
            }),
            key_facts(s@, processed, key_data(), sm.n_data, sm.data_vs, sm.data_ve),
            key_facts(s@, processed, key_errors(), sm.n_errors, sm.errors_vs, sm.errors_ve),
            key_facts(s@, processed, key_code(), sm.n_code, sm.code_vs, sm.code_ve),
            key_facts(s@, processed, key_message(), sm.n_message, sm.message_vs, sm.message_ve),
        decreases s@.len() - p,
    {
        let j = skip_ws(s, p);
        if !(j < s.len() && s[j] == QUOTE) {
            return None;
        }
        let (key, k) = match scan_str_x(s, j + 1) {
            None => {
                return None;
            },
            Some(q) => q,
        };
        let c = skip_ws(s, k);
        if !(c < s.len() && s[c] == COLON) {
            return None;
        }
        let vs = skip_ws(s, c + 1);
        let ve = match scan_value_x(s, vs) {
            None => {
                return None;
            },
            Some(e) => e,
        };
        let ghost m = JsonMember { key: key@, val_start: vs as int, val_end: ve as int };
        proof {
            lemma_push_key(processed, m, key_data());
            lemma_push_key(processed, m, key_errors());
            lemma_push_key(processed, m, key_code());
            lemma_push_key(processed, m, key_message());
        }
        if is_key_data(&key) {
            if sm.n_data == 0 {
                sm.data_vs = vs;
                sm.data_ve = ve;
            }
            sm.n_data = sm.n_data + 1;
        }
        if is_key_errors(&key) {
            if sm.n_errors == 0 {
                sm.errors_vs = vs;
                sm.errors_ve = ve;
            }
            sm.n_errors = sm.n_errors + 1;
        }
        if is_key_code(&key) {
            if sm.n_code == 0 {
                sm.code_vs = vs;
                sm.code_ve = ve;
            }
            sm.n_code = sm.n_code + 1;
        }
        if is_key_message(&key) {
            if sm.n_message == 0 {
                sm.message_vs = vs;
                sm.message_ve = ve;
            }
            sm.n_message = sm.n_message + 1;
        }
        let ghost prev = processed;
        proof {
            processed = processed.push(m);
        }
        let t = skip_ws(s, ve);
        if t < s.len() && s[t] == RBRACE {
            sm.end = t + 1;
            proof {
                assert(prev + (seq![m] + Seq::<JsonMember>::empty()) =~= processed);
                assert(prev + seq![m] =~= processed);
            }
            return Some((sm, Ghost(processed)));
        } else if t < s.len() && s[t] == COMMA {
            proof {
                assert(f > 0);
                if let Some(q) = scan_member_list(s@, (t + 1) as int, (f - 1) as nat) {
                    assert(prev + (seq![m] + q.0) =~= processed + q.0);
                }
                f = (f - 1) as nat;
            }
            p = t + 1;
        } else {
            return None;
        }
    }
}

/// Reads a string value at `vs`, as [`string_value_of`] defines it.
fn parse_string_value_x(s: &[u8], vs: usize) -> (r: Option<String>)
    requires
        vs <= s@.len(),
    ensures
        (match string_value_of(s@, vs as int) {
            None => r is None,
            Some(chars) => r matches Some(st) && st@ == chars,
        }),
{
    if !(vs < s.len() && s[vs] == QUOTE) {
        return None;
    }
    match scan_str_x(s, vs + 1) {
        None => None,
        Some((content, _e)) => crate::errors::string_from_utf8(content),
    }
}

/// Reads the code value at `vs`, as [`code_value_of`] defines it.
fn parse_code_x(s: &[u8], vs: usize) -> (r: Option<Option<String>>)
    requires
        vs <= s@.len(),
    ensures
        (match code_value_of(s@, vs as int) {
            None => r is None,
            Some(c) => r matches Some(co) && code_model(co) == c,
        }),
{
    if vs < s.len() && s[vs] == 0x6e {
        return Some(None);
    }
    match parse_string_value_x(s, vs) {
        None => None,
        Some(st) => Some(Some(st)),
    }
}

/// Walks an array's elements from just after the opening bracket, as
/// [`scan_elems`] defines them.
fn scan_elems_x(s: &[u8], i: usize) -> (r: Option<(Vec<(usize, usize)>, usize, Ghost<
    Seq<(int, int)>,
>)>)
    requires
        i <= s@.len(),
    ensures
        (match scan_elems(s@, i as int, (s@.len() + 1) as nat) {
            None => r is None,
            Some(p) => r matches Some((v, end, g)) && g@ == p.0 && end as int == p.1 && end
                <= s@.len() && v@.len() == p.0.len() && (forall|k: int|
                0 <= k < v@.len() ==> (#[trigger] v@[k]).0 as int == p.0[k].0 && v@[k].1 as int
                    == p.0[k].1 && v@[k].0 <= v@[k].1 <= s@.len()),
        }),
{
    let ghost fuel0: nat = (s@.len() + 1) as nat;
    let j0 = skip_ws(s, i);
    if j0 < s.len() && s[j0] == RBRACK {
        return Some((Vec::new(), j0 + 1, Ghost(Seq::empty())));
    }
    let mut out: Vec<(usize, usize)> = Vec::new();
    let mut p = i;
    let ghost mut f: nat = fuel0;
    let ghost mut processed: Seq<(int, int)> = Seq::empty();
    proof {
        if let Some(q) = scan_elem_list(s@, i as int, fuel0) {
            assert(Seq::<(int, int)>::empty() + q.0 =~= q.0);
        }
    }
    loop
        invariant
            i <= p <= s@.len(),
            fuel0 == (s@.len() + 1) as nat,
            f >= s@.len() - p + 1,
            (match scan_elem_list(s@, p as int, f) {
                None => scan_elems(s@, i as int, fuel0) is None,
                Some(q) => scan_elems(s@, i as int, fuel0) == Some((processed + q.0, q.1)),
            }),
            out@.len() == processed.len(),
            forall|k: int|
                0 <= k < out@.len() ==> (#[trigger] out@[k]).0 as int == processed[k].0
                    && out@[k].1 as int == processed[k].1 && out@[k].0 <= out@[k].1 <= s@.len(),
        decreases s@.len() - p,
    {
        let vs = skip_ws(s, p);
        let ve = match scan_value_x(s, vs) {
            None => {
                return None;
            },
            Some(e) => e,
        };
        let ghost prev = processed;
        out.push((vs, ve));
        proof {
            processed = processed.push((vs as int, ve as int));
        }
        let t = skip_ws(s, ve);
        if t < s.len() && s[t] == RBRACK {
            proof {
                assert(prev + seq![(vs as int, ve as int)] =~= processed);
            }
            return Some((out, t + 1, Ghost(processed)));
        } else if t < s.len() && s[t] == COMMA {
            proof {
                assert(f > 0);
                if let Some(q) = scan_elem_list(s@, (t + 1) as int, (f - 1) as nat) {
                    assert(prev + (seq![(vs as int, ve as int)] + q.0) =~= processed + q.0);
                }
                f = (f - 1) as nat;
            }
            p = t + 1;
        } else {
            return None;
        }
    }
}

/// Reads the message of one error entry, as [`entry_message_of`] defines
/// it.
fn parse_entry_message_x(s: &[u8], es: usize) -> (r: Option<String>)
    requires
        es <= s@.len(),
    ensures
        (match entry_message_of(s@, es as int) {
            None => r is None,
            Some(msg) => r matches Some(st) && st@ == msg,
        }),
{
    if !(es < s.len() && s[es] == LBRACE) {
        return None;
    }
    match scan_members_x(s, es + 1) {
        None => None,
        Some((sm, _g)) => {
            if sm.n_message == 1 {
                parse_string_value_x(s, sm.message_vs)
            } else {
                None
            }
        },
    }
}

/// A failing prefix makes the whole element list fail.
proof fn lemma_messages_prefix_none(s: Seq<u8>, exts: Seq<(int, int)>, k: int)
    requires
        0 <= k <= exts.len(),
        messages_of_elems(s, exts.subrange(0, k)) is None,
    ensures
        messages_of_elems(s, exts) is None,
    decreases exts.len() - k,
{
    if k < exts.len() {
        assert(exts.subrange(0, k + 1).drop_last() =~= exts.subrange(0, k));
        assert(exts.subrange(0, k + 1).last() == exts[k]);
        lemma_messages_prefix_none(s, exts, k + 1);
    } else {
        assert(exts.subrange(0, exts.len() as int) =~= exts);
    }
}

/// Reads the error list at `vs`, as [`messages_value_of`] defines it.
fn parse_messages_x(s: &[u8], vs: usize) -> (r: Option<Vec<GraphQLError>>)
    requires
        vs <= s@.len(),
    ensures
        (match messages_value_of(s@, vs as int) {
            None => r is None,
            Some(msgs) => r matches Some(es) && messages_model(es@) == msgs,
        }),
{
    if !(vs < s.len() && s[vs] == LBRACK) {
        return None;
    }
    let (exts, _end, g) = match scan_elems_x(s, vs + 1) {
        None => {
            return None;
        },
        Some(q) => q,
    };
    let mut out: Vec<GraphQLError> = Vec::new();
    let mut k: usize = 0;
    proof {
        assert(g@.subrange(0, 0) =~= Seq::<(int, int)>::empty());
        assert(messages_model(out@) =~= Seq::<Seq<char>>::empty());
    }
    while k < exts.len()
        invariant
            k <= exts.len(),
            exts@.len() == g@.len(),
            vs < s@.len() && s@[vs as int] == LBRACK,
            scan_elems(s@, vs as int + 1, (s@.len() + 1) as nat) matches Some(p) && p.0 == g@,
            forall|t: int|
                0 <= t < exts@.len() ==> (#[trigger] exts@[t]).0 as int == g@[t].0 && exts@[t].1
                    as int == g@[t].1 && exts@[t].0 <= exts@[t].1 <= s@.len(),
            messages_of_elems(s@, g@.subrange(0, k as int)) == Some(messages_model(out@)),
        decreases exts@.len() - k,
    {
        let es = exts[k].0;
        let ghost prevout = out@;
        proof {
            assert(g@.subrange(0, k + 1).drop_last() =~= g@.subrange(0, k as int));
            assert(g@.subrange(0, k + 1).last() == g@[k as int]);
        }
        match parse_entry_message_x(s, es) {
            None => {
                proof {
                    lemma_messages_prefix_none(s@, g@, k + 1);
                }
                return None;
            },
            Some(st) => {
                out.push(GraphQLError { message: st });
                proof {
                    assert(messages_model(out@) =~= messages_model(prevout).push(st@));
                }
            },
        }
        k = k + 1;
    }
    proof {
        assert(g@.subrange(0, g@.len() as int) =~= g@);
    }
    Some(out)
}

/// Decodes one response body into the envelope shape its bytes select, as
/// [`envelope_of`] defines it.  The payload of a success stays raw bytes:
/// interpreting it is the caller's business.
pub fn decode(bytes: &[u8]) -> (r: EnvelopeDecodeResult)
    ensures
        r.model() == envelope_of(bytes@),
{
    let j = skip_ws(bytes, 0);
    if !(j < bytes.len() && bytes[j] == LBRACE) {
        return EnvelopeDecodeResult::Malformed;
    }
    let (sm, g) = match scan_members_x(bytes, j + 1) {
        None => {
            return EnvelopeDecodeResult::Malformed;
        },
        Some(q) => q,
    };
    let t = skip_ws(bytes, sm.end);
    if t != bytes.len() {
        return EnvelopeDecodeResult::Malformed;
    }
    if sm.n_data == 1 {
        let payload = slice_to_vec(&bytes[sm.data_vs..sm.data_ve]);
        EnvelopeDecodeResult::Success(payload)
    } else if sm.n_errors == 1 && sm.n_code <= 1 {
        let code_r: Option<Option<String>> = if sm.n_code == 1 {
            parse_code_x(bytes, sm.code_vs)
        } else {
            Some(None)
        };
        let msgs_r = parse_messages_x(bytes, sm.errors_vs);
        match (msgs_r, code_r) {
            (Some(errors), Some(code)) => EnvelopeDecodeResult::ErrorEnvelope(
                GraphQLErrors { code, errors },
            ),
            _ => EnvelopeDecodeResult::Malformed,
        }
    } else {
        EnvelopeDecodeResult::Malformed
    }
}

} // verus!
