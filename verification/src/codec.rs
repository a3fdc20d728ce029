//! The wire encoding: JSON frames for chat messages and for the
//! outbound event envelope.
//!
//! An inbound frame is one JSON object
//! `{"recipient":"…","sender":"…","text":"…","time":<ms>}`; an outbound
//! frame wraps a payload in a tagged envelope, e.g.
//! `{"type":"ChatMessage","message":{…}}`. Encoding and decoding are
//! written here as verified functions over character sequences; a
//! message survives the round trip unchanged, millisecond timestamp
//! included.
//!
//! The decoder reads the frame layout exactly as the encoder writes
//! it — fields in layout order, no padding between tokens — which is
//! also the form the common JSON serializers emit for this object;
//! anything else counts as malformed and is dropped by the caller.

use vstd::prelude::*;
use crate::msg::{ChatMessage, ChatMessageView, OutboundEvent, OutboundEventView};

verus! {

// ---------------------------------------------------------------------
// Specification: string escaping and number rendering
// ---------------------------------------------------------------------

/// Decimal digit character for a value below ten.
pub open spec fn digit_char(d: int) -> char
    recommends
        0 <= d < 10,
{
    ((48 + d) as u8) as char
}

/// Decimal rendering of a natural number, most significant digit
/// first; zero renders as `0`.
pub open spec fn dec_digits(n: nat) -> Seq<char>
    decreases n,
{
    if n < 10 {
        seq![digit_char(n as int)]
    } else {
        dec_digits(n / 10).push(digit_char((n % 10) as int))
    }
}

/// Decimal rendering of an integer, with a leading minus sign when
/// negative.
pub open spec fn int_chars(n: int) -> Seq<char> {
    if n < 0 {
        seq!['-'] + dec_digits((-n) as nat)
    } else {
        dec_digits(n as nat)
    }
}

/// How one character appears inside a JSON string literal: the quote,
/// the backslash and the three common control characters are escaped,
/// every other character stands for itself.
pub open spec fn esc_char(c: char) -> Seq<char> {
    if c == '"' {
        seq!['\\', '"']
    } else if c == '\\' {
        seq!['\\', '\\']
    } else if c == '\n' {
        seq!['\\', 'n']
    } else if c == '\r' {
        seq!['\\', 'r']
    } else if c == '\t' {
        seq!['\\', 't']
    } else {
        seq![c]
    }
}

/// A whole string escaped for a JSON string literal.
pub open spec fn esc(s: Seq<char>) -> Seq<char>
    decreases s.len(),
{
    if s.len() == 0 {
        Seq::empty()
    } else {
        esc(s.drop_last()) + esc_char(s.last())
    }
}

// ---------------------------------------------------------------------
// Specification: the frame layouts
// ---------------------------------------------------------------------

/// `{"recipient":"` — the head of a message object.
pub open spec fn lit_head() -> Seq<char> {
    seq!['{', '"', 'r', 'e', 'c', 'i', 'p', 'i', 'e', 'n', 't', '"', ':', '"']
}

/// `","sender":"` without its leading quote (the string parser consumes
/// the closing quote of the field before it).
pub open spec fn lit_sender() -> Seq<char> {
    seq![',', '"', 's', 'e', 'n', 'd', 'e', 'r', '"', ':', '"']
}

/// `,"text":"` between the sender and the text.
pub open spec fn lit_text() -> Seq<char> {
    seq![',', '"', 't', 'e', 'x', 't', '"', ':', '"']
}

/// `,"time":` between the text and the timestamp.
pub open spec fn lit_time() -> Seq<char> {
    seq![',', '"', 't', 'i', 'm', 'e', '"', ':']
}

/// The encoding of one chat message.
pub open spec fn spec_encode_msg(v: ChatMessageView) -> Seq<char> {
    lit_head() + esc(v.recipient) + seq!['"'] + lit_sender() + esc(v.sender) + seq!['"']
        + lit_text() + esc(v.text) + seq!['"'] + lit_time() + int_chars(v.time_ms) + seq!['}']
}

/// `{"type":"ChatMessage","message":` — envelope head for a delivered
/// message.
pub open spec fn lit_env_chat() -> Seq<char> {
    seq!['{', '"', 't', 'y', 'p', 'e', '"', ':', '"', 'C', 'h', 'a', 't', 'M', 'e', 's', 's', 'a',
        'g', 'e', '"', ',', '"', 'm', 'e', 's', 's', 'a', 'g', 'e', '"', ':']
}

/// `{"type":"SynchronizeMessage","message":` — envelope head for a sync
/// echo.
pub open spec fn lit_env_sync() -> Seq<char> {
    seq!['{', '"', 't', 'y', 'p', 'e', '"', ':', '"', 'S', 'y', 'n', 'c', 'h', 'r', 'o', 'n', 'i',
        'z', 'e', 'M', 'e', 's', 's', 'a', 'g', 'e', '"', ',', '"', 'm', 'e', 's', 's', 'a', 'g',
        'e', '"', ':']
}

/// `{"type":"AddUser","name":"` — envelope head for a contact arrival.
pub open spec fn lit_env_add() -> Seq<char> {
    seq!['{', '"', 't', 'y', 'p', 'e', '"', ':', '"', 'A', 'd', 'd', 'U', 's', 'e', 'r', '"', ',',
        '"', 'n', 'a', 'm', 'e', '"', ':', '"']
}

/// `{"type":"RemoveUser","name":"` — envelope head for a contact
/// departure.
pub open spec fn lit_env_remove() -> Seq<char> {
    seq!['{', '"', 't', 'y', 'p', 'e', '"', ':', '"', 'R', 'e', 'm', 'o', 'v', 'e', 'U', 's', 'e',
        'r', '"', ',', '"', 'n', 'a', 'm', 'e', '"', ':', '"']
}

/// The encoding of one outbound event, as written to a session's
/// transport.
pub open spec fn spec_encode_event(e: OutboundEventView) -> Seq<char> {
    match e {
        OutboundEventView::Chat(m) => lit_env_chat() + spec_encode_msg(m) + seq!['}'],
        OutboundEventView::SyncEcho(m) => lit_env_sync() + spec_encode_msg(m) + seq!['}'],
        OutboundEventView::ContactAdded(n) => lit_env_add() + esc(n) + seq!['"', '}'],
        OutboundEventView::ContactRemoved(n) => lit_env_remove() + esc(n) + seq!['"', '}'],
    }
}

// ---------------------------------------------------------------------
// The encoder
// ---------------------------------------------------------------------

/// Appends the decimal digits of `n`.
fn push_u64(out: &mut Vec<char>, n: u64)
    ensures
        final(out)@ == old(out)@ + dec_digits(n as nat),
    decreases n,
{
    if n >= 10 {
        push_u64(out, n / 10);
    }
    let d: u8 = (n % 10) as u8;
    out.push((48 + d) as char);
    proof {
        if n < 10 {
            assert(out@ =~= old(out)@ + dec_digits(n as nat));
        } else {
            assert(out@ =~= old(out)@ + dec_digits(n as nat));
        }
    }
}

/// Appends the decimal rendering of `n`, sign included.
fn push_i64(out: &mut Vec<char>, n: i64)
    ensures
        final(out)@ == old(out)@ + int_chars(n as int),
{
    if n < 0 {
        out.push('-');
        let m: u64 = (-(n as i128)) as u64;
        let ghost mid = out@;
        push_u64(out, m);
        proof {
            assert(mid =~= old(out)@ + seq!['-']);
            assert(out@ =~= old(out)@ + (seq!['-'] + dec_digits(m as nat)));
        }
    } else {
        push_u64(out, n as u64);
    }
}

/// Appends `s`, escaped for a JSON string literal.
fn push_escaped(out: &mut Vec<char>, s: &Vec<char>)
    ensures
        final(out)@ == old(out)@ + esc(s@),
{
    let mut i: usize = 0;
    while i < s.len()
        invariant
            i <= s@.len(),
            out@ == old(out)@ + esc(s@.subrange(0, i as int)),
        decreases s@.len() - i,
    {
        let ghost prefix = s@.subrange(0, i as int);
        let c = s[i];
        if c == '"' {
            out.push('\\');
            out.push('"');
        } else if c == '\\' {
            out.push('\\');
            out.push('\\');
        } else if c == '\n' {
            out.push('\\');
            out.push('n');
        } else if c == '\r' {
            out.push('\\');
            out.push('r');
        } else if c == '\t' {
            out.push('\\');
            out.push('t');
        } else {
            out.push(c);
        }
        proof {
            let next = s@.subrange(0, i + 1 as int);
            assert(next.drop_last() =~= prefix);
            assert(next.last() == s@[i as int]);
            assert(esc(next) == esc(prefix) + esc_char(s@[i as int]));
            assert(out@ =~= old(out)@ + esc(next));
        }
        i = i + 1;
    }
    proof {
        assert(s@.subrange(0, s@.len() as int) =~= s@);
    }
}

/// Encodes one chat message as an inbound-style JSON object.
pub fn encode_message(m: &ChatMessage) -> (r: Vec<char>)
    ensures
        r@ == spec_encode_msg(m@),
{
    let mut out: Vec<char> = Vec::new();
    push_msg(&mut out, m);
    proof {
        assert(out@ =~= spec_encode_msg(m@));
    }
    out
}

/// Appends `{"recipient":"`.
fn push_lit_head(out: &mut Vec<char>)
    ensures
        final(out)@ == old(out)@ + lit_head(),
{
    out.push('{');
    out.push('"');
    out.push('r');
    out.push('e');
    out.push('c');
    out.push('i');
    out.push('p');
    out.push('i');
    out.push('e');
    out.push('n');
    out.push('t');
    out.push('"');
    out.push(':');
    out.push('"');
    proof {
        assert(out@ =~= old(out)@ + lit_head());
    }
}

/// Appends `","sender":"`, the quote closing the field before it
/// included.
fn push_lit_sender(out: &mut Vec<char>)
    ensures
        final(out)@ == old(out)@ + seq!['"'] + lit_sender(),
{
    out.push('"');
    out.push(',');
    out.push('"');
    out.push('s');
    out.push('e');
    out.push('n');
    out.push('d');
    out.push('e');
    out.push('r');
    out.push('"');
    out.push(':');
    out.push('"');
    proof {
        assert(out@ =~= old(out)@ + seq!['"'] + lit_sender());
    }
}

/// Appends `","text":"`, the quote closing the field before it
/// included.
fn push_lit_text(out: &mut Vec<char>)
    ensures
        final(out)@ == old(out)@ + seq!['"'] + lit_text(),
{
    out.push('"');
    out.push(',');
    out.push('"');
    out.push('t');
    out.push('e');
    out.push('x');
    out.push('t');
    out.push('"');
    out.push(':');
    out.push('"');
    proof {
        assert(out@ =~= old(out)@ + seq!['"'] + lit_text());
    }
}

/// Appends `","time":`, the quote closing the field before it
/// included.
fn push_lit_time(out: &mut Vec<char>)
    ensures
        final(out)@ == old(out)@ + seq!['"'] + lit_time(),
{
    out.push('"');
    out.push(',');
    out.push('"');
    out.push('t');
    out.push('i');
    out.push('m');
    out.push('e');
    out.push('"');
    out.push(':');
    proof {
        assert(out@ =~= old(out)@ + seq!['"'] + lit_time());
    }
}

/// Appends the encoding of one chat message.
fn push_msg(out: &mut Vec<char>, m: &ChatMessage)
    ensures
        final(out)@ == old(out)@ + spec_encode_msg(m@),
{
    let ghost base = out@;
    push_lit_head(out);
    push_escaped(out, &m.recipient);
    let ghost g1 = out@;
    push_lit_sender(out);
    push_escaped(out, &m.sender);
    let ghost g2 = out@;
    push_lit_text(out);
    push_escaped(out, &m.text);
    let ghost g3 = out@;
    push_lit_time(out);
    push_i64(out, m.time_ms);
    out.push('}');
    proof {
        assert(g1 =~= base + lit_head() + esc(m@.recipient));
        assert(g2 =~= g1 + seq!['"'] + lit_sender() + esc(m@.sender));
        assert(g3 =~= g2 + seq!['"'] + lit_text() + esc(m@.text));
        assert(out@ =~= g3 + seq!['"'] + lit_time() + int_chars(m@.time_ms) + seq!['}']);
        assert(out@ =~= base + spec_encode_msg(m@));
    }
}

/// Encodes one outbound event in its tagged envelope.
pub fn encode_event(e: &OutboundEvent) -> (r: Vec<char>)
    ensures
        r@ == spec_encode_event(e@),
{
    let mut out: Vec<char> = Vec::new();
    match e {
        OutboundEvent::Chat(m) => {
            push_env_type(&mut out, true);
            proof {
                assert(out@ =~= lit_env_chat());
            }
            push_msg(&mut out, m);
            out.push('}');
            proof {
                assert(out@ =~= lit_env_chat() + spec_encode_msg(m@) + seq!['}']);
            }
        },
        OutboundEvent::SyncEcho(m) => {
            push_env_type(&mut out, false);
            proof {
                assert(out@ =~= lit_env_sync());
            }
            push_msg(&mut out, m);
            out.push('}');
            proof {
                assert(out@ =~= lit_env_sync() + spec_encode_msg(m@) + seq!['}']);
            }
        },
        OutboundEvent::ContactAdded(n) => {
            push_env_name(&mut out, true);
            proof {
                assert(out@ =~= lit_env_add());
            }
            push_escaped(&mut out, n);
            out.push('"');
            out.push('}');
            proof {
                assert(out@ =~= lit_env_add() + esc(n@) + seq!['"', '}']);
            }
        },
        OutboundEvent::ContactRemoved(n) => {
            push_env_name(&mut out, false);
            proof {
                assert(out@ =~= lit_env_remove());
            }
            push_escaped(&mut out, n);
            out.push('"');
            out.push('}');
            proof {
                assert(out@ =~= lit_env_remove() + esc(n@) + seq!['"', '}']);
            }
        },
    }
    out
}

/// Appends `{"type":"ChatMessage","message":` or its synchronize
/// variant.
fn push_env_type(out: &mut Vec<char>, chat: bool)
    ensures
        final(out)@ == old(out)@ + if chat {
            lit_env_chat()
        } else {
            lit_env_sync()
        },
{
    let ghost base = out@;
    out.push('{');
    out.push('"');
    out.push('t');
    out.push('y');
    out.push('p');
    out.push('e');
    out.push('"');
    out.push(':');
    out.push('"');
    if chat {
        out.push('C');
        out.push('h');
        out.push('a');
        out.push('t');
        out.push('M');
        out.push('e');
        out.push('s');
        out.push('s');
        out.push('a');
        out.push('g');
        out.push('e');
    } else {
        out.push('S');
        out.push('y');
        out.push('n');
        out.push('c');
        out.push('h');
        out.push('r');
        out.push('o');
        out.push('n');
        out.push('i');
        out.push('z');
        out.push('e');
        out.push('M');
        out.push('e');
        out.push('s');
        out.push('s');
        out.push('a');
        out.push('g');
        out.push('e');
    }
    out.push('"');
    out.push(',');
    out.push('"');
    out.push('m');
    out.push('e');
    out.push('s');
    out.push('s');
    out.push('a');
    out.push('g');
    out.push('e');
    out.push('"');
    out.push(':');
    proof {
        if chat {
            assert(out@ =~= base + lit_env_chat());
        } else {
            assert(out@ =~= base + lit_env_sync());
        }
    }
}

/// Appends `{"type":"AddUser","name":"` or its remove variant.
fn push_env_name(out: &mut Vec<char>, add: bool)
    ensures
        final(out)@ == old(out)@ + if add {
            lit_env_add()
        } else {
            lit_env_remove()
        },
{
    let ghost base = out@;
    out.push('{');
    out.push('"');
    out.push('t');
    out.push('y');
    out.push('p');
    out.push('e');
    out.push('"');
    out.push(':');
    out.push('"');
    if add {
        out.push('A');
        out.push('d');
        out.push('d');
    } else {
        out.push('R');
        out.push('e');
        out.push('m');
        out.push('o');
        out.push('v');
        out.push('e');
    }
    out.push('U');
    out.push('s');
    out.push('e');
    out.push('r');
    out.push('"');
    out.push(',');
    out.push('"');
    out.push('n');
    out.push('a');
    out.push('m');
    out.push('e');
    out.push('"');
    out.push(':');
    out.push('"');
    proof {
        if add {
            assert(out@ =~= base + lit_env_add());
        } else {
            assert(out@ =~= base + lit_env_remove());
        }
    }
}

// ---------------------------------------------------------------------
// Specification: the parser
// ---------------------------------------------------------------------

/// Whether `c` is a decimal digit.
pub open spec fn is_digit(c: char) -> bool {
    48 <= c as u32 <= 57
}

/// Value of a decimal digit character.
pub open spec fn digit_val(c: char) -> int {
    c as u32 - 48
}

/// Value of a run of decimal digit characters, most significant first.
pub open spec fn digits_val(s: Seq<char>) -> int
    decreases s.len(),
{
    if s.len() == 0 {
        0
    } else {
        digits_val(s.drop_last()) * 10 + digit_val(s.last())
    }
}

/// First position at or after `i` that does not hold a digit.
pub open spec fn digits_end(s: Seq<char>, i: int) -> int
    decreases s.len() - i,
{
    if 0 <= i < s.len() && is_digit(s[i]) {
        digits_end(s, i + 1)
    } else {
        i
    }
}

/// The character an escape letter stands for, if it is a recognized
/// one: the two JSON mandatory escapes, the optional solidus, and the
/// five control shorthands.
pub open spec fn unesc(e: char) -> Option<char> {
    if e == '"' {
        Some('"')
    } else if e == '\\' {
        Some('\\')
    } else if e == '/' {
        Some('/')
    } else if e == 'n' {
        Some('\n')
    } else if e == 'r' {
        Some('\r')
    } else if e == 't' {
        Some('\t')
    } else if e == 'b' {
        Some(8u8 as char)
    } else if e == 'f' {
        Some(12u8 as char)
    } else {
        None
    }
}

/// Parses a JSON string body starting at `i` (just past the opening
/// quote): the decoded content and the position just past the closing
/// quote. Fails on an unterminated string or an unrecognized escape.
pub open spec fn parse_str(s: Seq<char>, i: int) -> Option<(Seq<char>, int)>
    decreases s.len() - i,
{
    if !(0 <= i < s.len()) {
        None
    } else if s[i] == '"' {
        Some((Seq::empty(), i + 1))
    } else if s[i] == '\\' {
        if i + 1 < s.len() {
            match unesc(s[i + 1]) {
                Some(c) => match parse_str(s, i + 2) {
                    Some(t) => Some((seq![c] + t.0, t.1)),
                    None => None,
                },
                None => None,
            }
        } else {
            None
        }
    } else {
        match parse_str(s, i + 1) {
            Some(t) => Some((seq![s[i]] + t.0, t.1)),
            None => None,
        }
    }
}

/// Parses an integer starting at `i`: an optional minus sign, then a
/// run of at most nineteen digits, whose value must fit a 64-bit signed
/// integer. Returns the value and the position just past the run.
pub open spec fn parse_int(s: Seq<char>, i: int) -> Option<(int, int)> {
    let neg = 0 <= i < s.len() && s[i] == '-';
    let st = if neg {
        i + 1
    } else {
        i
    };
    let e = digits_end(s, st);
    if e == st || e - st > 19 {
        None
    } else {
        let v = digits_val(s.subrange(st, e));
        let sv = if neg {
            -v
        } else {
            v
        };
        if sv < i64::MIN as int || sv > i64::MAX as int {
            None
        } else {
            Some((sv, e))
        }
    }
}

/// Whether `lit` occurs in `s` at position `i`.
pub open spec fn has_lit(s: Seq<char>, i: int, lit: Seq<char>) -> bool {
    &&& 0 <= i
    &&& i + lit.len() <= s.len()
    &&& forall|k: int| 0 <= k < lit.len() ==> s[i + k] == lit[k]
}

/// Parses a whole inbound frame: one chat message object with its four
/// fields in layout order and nothing following it.
pub open spec fn spec_decode_msg(s: Seq<char>) -> Option<ChatMessageView> {
    if !has_lit(s, 0, lit_head()) {
        None
    } else {
        match parse_str(s, lit_head().len() as int) {
            None => None,
            Some((recipient, i1)) => if !has_lit(s, i1, lit_sender()) {
                None
            } else {
                match parse_str(s, i1 + lit_sender().len()) {
                    None => None,
                    Some((sender, i2)) => if !has_lit(s, i2, lit_text()) {
                        None
                    } else {
                        match parse_str(s, i2 + lit_text().len()) {
                            None => None,
                            Some((text, i3)) => if !has_lit(s, i3, lit_time()) {
                                None
                            } else {
                                match parse_int(s, i3 + lit_time().len()) {
                                    None => None,
                                    Some((t, i4)) => if i4 + 1 == s.len() && s[i4] == '}' {
                                        Some(
                                            ChatMessageView {
                                                recipient,
                                                sender,
                                                text,
                                                time_ms: t,
                                            },
                                        )
                                    } else {
                                        None
                                    },
                                }
                            },
                        }
                    },
                }
            },
        }
    }
}

// ---------------------------------------------------------------------
// The decoder
// ---------------------------------------------------------------------

/// Whether `lit` occurs in `s` at position `i`.
fn expect(s: &[char], i: usize, lit: &[char]) -> (r: bool)
    ensures
        r == has_lit(s@, i as int, lit@),
{
    if i > s.len() || lit.len() > s.len() - i {
        return false;
    }
    let mut k: usize = 0;
    while k < lit.len()
        invariant
            k <= lit@.len(),
            i + lit@.len() <= s@.len(),
            s@.len() <= usize::MAX,
            forall|j: int| 0 <= j < k ==> s@[i + j] == lit@[j],
        decreases lit@.len() - k,
    {
        if s[i + k] != lit[k] {
            return false;
        }
        k = k + 1;
    }
    true
}

/// Executable twin of [`unesc`].
fn unesc_exec(e: char) -> (r: Option<char>)
    ensures
        r == unesc(e),
{
    if e == '"' {
        Some('"')
    } else if e == '\\' {
        Some('\\')
    } else if e == '/' {
        Some('/')
    } else if e == 'n' {
        Some('\n')
    } else if e == 'r' {
        Some('\r')
    } else if e == 't' {
        Some('\t')
    } else if e == 'b' {
        Some(8u8 as char)
    } else if e == 'f' {
        Some(12u8 as char)
    } else {
        None
    }
}

/// Parses a JSON string body starting at `i`; see [`parse_str`].
fn parse_str_at(s: &[char], i: usize) -> (r: Option<(Vec<char>, usize)>)
    ensures
        match r {
            Some(t) => parse_str(s@, i as int) == Some((t.0@, t.1 as int)),
            None => parse_str(s@, i as int) is None,
        },
    decreases s@.len() - i,
{
    if i >= s.len() {
        return None;
    }
    let c = s[i];
    if c == '"' {
        let empty: Vec<char> = Vec::new();
        proof {
            assert(empty@ =~= Seq::<char>::empty());
        }
        Some((empty, i + 1))
    } else if c == '\\' {
        if i + 1 >= s.len() {
            return None;
        }
        match unesc_exec(s[i + 1]) {
            None => None,
            Some(c2) => match parse_str_at(s, i + 2) {
                None => None,
                Some((mut t, k)) => {
                    t.insert(0, c2);
                    proof {
                        let rest = parse_str(s@, i + 2 as int).unwrap().0;
                        assert(t@ =~= seq![c2] + rest);
                    }
                    Some((t, k))
                },
            },
        }
    } else {
        match parse_str_at(s, i + 1) {
            None => None,
            Some((mut t, k)) => {
                t.insert(0, c);
                proof {
                    let rest = parse_str(s@, i + 1 as int).unwrap().0;
                    assert(t@ =~= seq![s@[i as int]] + rest);
                }
                Some((t, k))
            },
        }
    }
}

/// Every digit run's value is below ten to the power of its length.
proof fn lemma_digits_val_bounds(s: Seq<char>)
    requires
        forall|k: int| 0 <= k < s.len() ==> is_digit(#[trigger] s[k]),
    ensures
        0 <= digits_val(s) < pow10(s.len() as nat),
    decreases s.len(),
{
    if s.len() > 0 {
        lemma_digits_val_bounds(s.drop_last());
    }
}

/// Ten to the power of `n`.
pub open spec fn pow10(n: nat) -> int
    decreases n,
{
    if n == 0 {
        1
    } else {
        10 * pow10((n - 1) as nat)
    }
}

/// Whether `c` is a decimal digit.
fn is_digit_exec(c: char) -> (r: bool)
    ensures
        r == is_digit(c),
{
    48 <= c as u32 && c as u32 <= 57
}

/// Parses an integer starting at `i`; see [`parse_int`].
fn parse_int_at(s: &[char], i: usize) -> (r: Option<(i64, usize)>)
    ensures
        match r {
            Some(t) => parse_int(s@, i as int) == Some((t.0 as int, t.1 as int)),
            None => parse_int(s@, i as int) is None,
        },
{
    if i > s.len() {
        proof {
            assert(digits_end(s@, i as int) == i as int);
        }
        return None;
    }
    let neg = i < s.len() && s[i] == '-';
    let st = if neg {
        i + 1
    } else {
        i
    };
    let mut e: usize = st;
    while e < s.len() && is_digit_exec(s[e])
        invariant
            st <= e <= s@.len(),
            digits_end(s@, st as int) == digits_end(s@, e as int),
            forall|k: int| st <= k < e ==> is_digit(#[trigger] s@[k]),
        decreases s@.len() - e,
    {
        e = e + 1;
    }
    proof {
        assert(digits_end(s@, e as int) == e as int);
    }
    if e == st || e - st > 19 {
        return None;
    }
    let ghost run = s@.subrange(st as int, e as int);
    proof {
        lemma_digits_val_bounds(run);
        lemma_pow10_vals();
    }
    let mut v: u64 = 0;
    let mut k: usize = st;
    while k < e
        invariant
            st <= k <= e <= s@.len(),
            e - st <= 19,
            forall|j: int| st <= j < e ==> is_digit(#[trigger] s@[j]),
            v == digits_val(s@.subrange(st as int, k as int)),
            v < pow10((k - st) as nat),
        decreases e - k,
    {
        let ghost prefix = s@.subrange(st as int, k as int);
        proof {
            lemma_pow10_mono((k - st) as nat, 18);
            lemma_pow10_vals();
        }
        let c = s[k];
        let d: u64 = (c as u32 - 48) as u64;
        v = v * 10 + d;
        proof {
            let next = s@.subrange(st as int, k + 1 as int);
            assert(next.drop_last() =~= prefix);
            assert(next.last() == s@[k as int]);
        }
        k = k + 1;
    }
    proof {
        assert(s@.subrange(st as int, e as int) =~= run);
        lemma_digits_val_bounds(run);
    }
    if neg {
        if v > 9223372036854775808u64 {
            return None;
        }
        let n: i64 = if v == 9223372036854775808u64 {
            i64::MIN
        } else {
            -(v as i64)
        };
        Some((n, e))
    } else {
        if v > 9223372036854775807u64 {
            return None;
        }
        Some((v as i64, e))
    }
}

/// The two powers of ten the decoder compares against, written out.
proof fn lemma_pow10_vals()
    ensures
        pow10(18) == 1_000_000_000_000_000_000,
        pow10(19) == 10_000_000_000_000_000_000,
{
    reveal_with_fuel(pow10, 21);
}

/// `pow10` does not shrink as the exponent grows.
proof fn lemma_pow10_mono(a: nat, b: nat)
    requires
        a <= b,
    ensures
        pow10(a) <= pow10(b),
    decreases b - a,
{
    if a < b {
        lemma_pow10_mono(a, (b - 1) as nat);
        lemma_pow10_pos((b - 1) as nat);
        assert(pow10(b) == 10 * pow10((b - 1) as nat));
    }
}

/// `pow10` is positive.
proof fn lemma_pow10_pos(n: nat)
    ensures
        pow10(n) >= 1,
    decreases n,
{
    if n > 0 {
        lemma_pow10_pos((n - 1) as nat);
    }
}

/// Decodes a whole inbound frame into a chat message, or nothing when
/// the frame is malformed; see [`spec_decode_msg`]. A malformed frame
/// is simply dropped by the caller, with the connection left open.
pub fn decode_message(s: &[char]) -> (r: Option<ChatMessage>)
    ensures
        match r {
            Some(m) => spec_decode_msg(s@) == Some(m@),
            None => spec_decode_msg(s@) is None,
        },
{
    let total = s.len();
    proof {
        assert(s@.len() == total as int);
    }
    let head = lit_head_vec();
    if !expect(s, 0, head.as_slice()) {
        return None;
    }
    let r1 = parse_str_at(s, head.len());
    let (recipient, i1) = match r1 {
        None => {
            return None;
        },
        Some(t) => t,
    };
    let sender_lit = lit_sender_vec();
    if !expect(s, i1, sender_lit.as_slice()) {
        return None;
    }
    let r2 = parse_str_at(s, i1 + sender_lit.len());
    let (sender, i2) = match r2 {
        None => {
            return None;
        },
        Some(t) => t,
    };
    let text_lit = lit_text_vec();
    if !expect(s, i2, text_lit.as_slice()) {
        return None;
    }
    let r3 = parse_str_at(s, i2 + text_lit.len());
    let (text, i3) = match r3 {
        None => {
            return None;
        },
        Some(t) => t,
    };
    let time_lit = lit_time_vec();
    if !expect(s, i3, time_lit.as_slice()) {
        return None;
    }
    let r4 = parse_int_at(s, i3 + time_lit.len());
    let (time_ms, i4) = match r4 {
        None => {
            return None;
        },
        Some(t) => t,
    };
    if !(i4 < s.len() && s[i4] == '}' && i4 + 1 == s.len()) {
        return None;
    }
    Some(ChatMessage { recipient, sender, text, time_ms })
}

// ---------------------------------------------------------------------
// The round trip
// ---------------------------------------------------------------------

/// `esc` peels from the front as well as from the back.
proof fn lemma_esc_front(s: Seq<char>)
    requires
        s.len() > 0,
    ensures
        esc(s) == esc_char(s[0]) + esc(s.skip(1)),
    decreases s.len(),
{
    if s.len() == 1 {
        assert(s.drop_last() =~= Seq::<char>::empty());
        assert(s.skip(1) =~= Seq::<char>::empty());
        assert(s.last() == s[0]);
        assert(esc(Seq::<char>::empty()) + esc_char(s[0]) =~= esc_char(s[0]) + esc(
            Seq::<char>::empty(),
        ));
    } else {
        let dl = s.drop_last();
        lemma_esc_front(dl);
        assert(s.skip(1).drop_last() =~= dl.skip(1));
        assert(s.skip(1).last() == s.last());
        assert(dl[0] == s[0]);
        assert(esc(s.skip(1)) == esc(dl.skip(1)) + esc_char(s.last()));
        assert((esc_char(s[0]) + esc(dl.skip(1))) + esc_char(s.last()) =~= esc_char(s[0]) + (esc(
            dl.skip(1),
        ) + esc_char(s.last())));
    }
}

/// The string parser, fed the escaped form of `t` followed by a
/// closing quote, recovers exactly `t` and stops just past the quote.
proof fn lemma_parse_str_esc(s: Seq<char>, i: int, t: Seq<char>)
    requires
        0 <= i,
        i + esc(t).len() + 1 <= s.len(),
        forall|k: int| 0 <= k < esc(t).len() ==> s[i + k] == esc(t)[k],
        s[i + esc(t).len()] == '"',
    ensures
        parse_str(s, i) == Some((t, i + esc(t).len() + 1)),
    decreases t.len(),
{
    if t.len() == 0 {
        assert(s[i] == '"');
        assert(t =~= Seq::<char>::empty());
    } else {
        lemma_esc_front(t);
        let c = t[0];
        let rest = t.skip(1);
        let el = esc_char(c).len() as int;
        assert(esc(t).len() == el + esc(rest).len());
        assert forall|k: int| 0 <= k < el implies s[i + k] == esc_char(c)[k] by {
            assert(s[i + k] == esc(t)[k]);
        }
        assert forall|k: int| 0 <= k < esc(rest).len() implies s[i + el + k] == esc(rest)[k] by {
            assert(s[i + (el + k)] == esc(t)[el + k]);
            assert(esc(t)[el + k] == esc(rest)[k]);
        }
        assert(s[i + el + esc(rest).len()] == '"') by {
            assert(i + el + esc(rest).len() == i + esc(t).len());
        }
        lemma_parse_str_esc(s, i + el, rest);
        assert(seq![c] + rest =~= t);
        if c == '"' || c == '\\' || c == '\n' || c == '\r' || c == '\t' {
            assert(s[i] == '\\');
            assert(s[i + 1] == esc_char(c)[1]);
            assert(unesc(esc_char(c)[1]) == Some(c));
        } else {
            assert(s[i] == c);
        }
    }
}

/// Every character of a decimal rendering is a digit.
proof fn lemma_dec_digits_are_digits(n: nat)
    ensures
        forall|k: int| 0 <= k < dec_digits(n).len() ==> is_digit(#[trigger] dec_digits(n)[k]),
        dec_digits(n).len() >= 1,
    decreases n,
{
    if n < 10 {
        assert(dec_digits(n)[0] == digit_char(n as int));
        assert(is_digit(digit_char(n as int)));
    } else {
        lemma_dec_digits_are_digits(n / 10);
        let dd = dec_digits(n / 10);
        let dc = digit_char((n % 10) as int);
        assert(is_digit(dc));
        assert(forall|k: int| 0 <= k < dd.len() ==> dd.push(dc)[k] == dd[k]);
        assert(dd.push(dc)[dd.len() as int] == dc);
    }
}

/// Reading back the decimal rendering of `n` yields `n`.
proof fn lemma_digits_val_dec(n: nat)
    ensures
        digits_val(dec_digits(n)) == n,
    decreases n,
{
    if n < 10 {
        assert(dec_digits(n).drop_last() =~= Seq::<char>::empty());
        assert(dec_digits(n).last() == digit_char(n as int));
        assert(digits_val(Seq::<char>::empty()) == 0);
        assert(digit_char(n as int) as u32 == 48 + n);
        assert(digit_val(digit_char(n as int)) == n);
    } else {
        lemma_digits_val_dec(n / 10);
        let dd = dec_digits(n / 10);
        let dc = digit_char((n % 10) as int);
        assert(dd.push(dc).drop_last() =~= dd);
        assert(dd.push(dc).last() == dc);
        assert(digits_val(dec_digits(n)) == digits_val(dd) * 10 + digit_val(dc));
        assert(digit_val(dc) == n % 10);
    }
}

/// A number below `pow10(k)` renders in at most `k` digits.
proof fn lemma_dec_digits_len(n: nat, k: nat)
    requires
        1 <= k,
        n < pow10(k),
    ensures
        dec_digits(n).len() <= k,
    decreases n,
{
    if n < 10 {
    } else {
        if k < 2 {
            assert(pow10(1) == 10) by {
                reveal_with_fuel(pow10, 3);
            }
            assert(false);
        }
        assert(pow10(k) == 10 * pow10((k - 1) as nat));
        assert(n / 10 < pow10((k - 1) as nat)) by (nonlinear_arith)
            requires
                n < 10 * pow10((k - 1) as nat),
                n >= 0,
        ;
        lemma_dec_digits_len(n / 10, (k - 1) as nat);
    }
}

/// From `i` up to `e` everything is a digit and `e` is the first place
/// that is not: the digit run ends at `e`.
proof fn lemma_digits_end_run(s: Seq<char>, i: int, e: int)
    requires
        0 <= i <= e <= s.len(),
        forall|k: int| i <= k < e ==> is_digit(#[trigger] s[k]),
        e == s.len() || !is_digit(s[e]),
    ensures
        digits_end(s, i) == e,
    decreases e - i,
{
    if i < e {
        assert(is_digit(s[i]));
        lemma_digits_end_run(s, i + 1, e);
    }
}

/// The integer parser, fed the decimal rendering of `n` followed by a
/// non-digit, recovers exactly `n` and stops at that non-digit.
proof fn lemma_parse_int_of_int(s: Seq<char>, i: int, n: int)
    requires
        0 <= i,
        i64::MIN <= n <= i64::MAX,
        i + int_chars(n).len() < s.len(),
        forall|k: int| 0 <= k < int_chars(n).len() ==> s[i + k] == int_chars(n)[k],
        !is_digit(s[i + int_chars(n).len()]),
        s[i + int_chars(n).len()] != '-',
    ensures
        parse_int(s, i) == Some((n, i + int_chars(n).len())),
{
    let mag: nat = if n < 0 {
        (-n) as nat
    } else {
        n as nat
    };
    let dd = dec_digits(mag);
    let st: int = if n < 0 {
        i + 1
    } else {
        i
    };
    lemma_dec_digits_are_digits(mag);
    if n < 0 {
        assert(int_chars(n) == seq!['-'] + dd);
        assert(s[i] == (seq!['-'] + dd)[0]);
        assert(s[i] == '-');
        assert forall|k: int| 0 <= k < dd.len() implies s[st + k] == dd[k] by {
            assert(s[i + (1 + k)] == int_chars(n)[1 + k]);
            assert(int_chars(n)[1 + k] == dd[k]);
        }
    } else {
        assert(int_chars(n) == dd);
        assert forall|k: int| 0 <= k < dd.len() implies s[st + k] == dd[k] by {
            assert(s[i + k] == int_chars(n)[k]);
        }
        assert(s[i] == dd[0]);
        assert(is_digit(dd[0]));
        assert(dd[0] as u32 != 45);
        assert(s[i] != '-');
    }
    assert forall|k: int| st <= k < st + dd.len() implies is_digit(#[trigger] s[k]) by {
        assert(s[st + (k - st)] == dd[k - st]);
        assert(is_digit(dd[k - st]));
    }
    assert(st + dd.len() == i + int_chars(n).len());
    lemma_digits_end_run(s, st, st + dd.len());
    lemma_pow10_vals();
    assert(mag < pow10(19));
    lemma_dec_digits_len(mag, 19);
    lemma_digits_val_dec(mag);
    assert(s.subrange(st, st + dd.len()) =~= dd);
    assert(digits_val(s.subrange(st, st + dd.len())) == mag);
}

/// A message comes back from the wire exactly as it went out: decoding
/// the encoding of any message yields that message, every field and
/// the millisecond timestamp included.
pub proof fn lemma_message_round_trip(v: ChatMessageView)
    requires
        i64::MIN <= v.time_ms <= i64::MAX,
    ensures
        spec_decode_msg(spec_encode_msg(v)) == Some(v),
{
    let s = spec_encode_msg(v);
    let a = lit_head();
    let er = esc(v.recipient);
    let es = esc(v.sender);
    let et = esc(v.text);
    let ti = int_chars(v.time_ms);
    let o1 = a.len() as int;
    let o2 = o1 + er.len() + 1;
    let o3 = o2 + lit_sender().len() as int;
    let o4 = o3 + es.len() + 1;
    let o5 = o4 + lit_text().len() as int;
    let o6 = o5 + et.len() + 1;
    let o7 = o6 + lit_time().len() as int;
    let o8 = o7 + ti.len();
    assert(s.len() == o8 + 1);
    assert(has_lit(s, 0, a)) by {
        assert(forall|k: int| 0 <= k < a.len() ==> s[k] == a[k]);
    }
    assert forall|k: int| 0 <= k < er.len() implies s[o1 + k] == er[k] by {}
    assert(s[o1 + er.len()] == '"');
    lemma_parse_str_esc(s, o1, v.recipient);
    assert(parse_str(s, o1) == Some((v.recipient, o2)));
    assert(has_lit(s, o2, lit_sender())) by {
        assert(forall|k: int| 0 <= k < lit_sender().len() ==> s[o2 + k] == lit_sender()[k]);
    }
    assert forall|k: int| 0 <= k < es.len() implies s[o3 + k] == es[k] by {}
    assert(s[o3 + es.len()] == '"');
    lemma_parse_str_esc(s, o3, v.sender);
    assert(parse_str(s, o3) == Some((v.sender, o4)));
    assert(has_lit(s, o4, lit_text())) by {
        assert(forall|k: int| 0 <= k < lit_text().len() ==> s[o4 + k] == lit_text()[k]);
    }
    assert forall|k: int| 0 <= k < et.len() implies s[o5 + k] == et[k] by {}
    assert(s[o5 + et.len()] == '"');
    lemma_parse_str_esc(s, o5, v.text);
    assert(parse_str(s, o5) == Some((v.text, o6)));
    assert(has_lit(s, o6, lit_time())) by {
        assert(forall|k: int| 0 <= k < lit_time().len() ==> s[o6 + k] == lit_time()[k]);
    }
    assert forall|k: int| 0 <= k < ti.len() implies s[o7 + k] == ti[k] by {}
    assert(s[o8] == '}');
    assert(!is_digit('}')) by {
        assert('}' as u32 == 125);
    }
    assert('}' != '-');
    lemma_parse_int_of_int(s, o7, v.time_ms);
    assert(parse_int(s, o7) == Some((v.time_ms, o8)));
}

/// `{"recipient":"` as a vector.
fn lit_head_vec() -> (v: Vec<char>)
    ensures
        v@ == lit_head(),
{
    let mut v: Vec<char> = Vec::new();
    push_lit_head(&mut v);
    proof {
        assert(v@ =~= lit_head());
    }
    v
}

/// `,"sender":"` as a vector.
fn lit_sender_vec() -> (v: Vec<char>)
    ensures
        v@ == lit_sender(),
{
    let mut v: Vec<char> = Vec::new();
    v.push(',');
    v.push('"');
    v.push('s');
    v.push('e');
    v.push('n');
    v.push('d');
    v.push('e');
    v.push('r');
    v.push('"');
    v.push(':');
    v.push('"');
    proof {
        assert(v@ =~= lit_sender());
    }
    v
}

/// `,"text":"` as a vector.
fn lit_text_vec() -> (v: Vec<char>)
    ensures
        v@ == lit_text(),
{
    let mut v: Vec<char> = Vec::new();
    v.push(',');
    v.push('"');
    v.push('t');
    v.push('e');
    v.push('x');
    v.push('t');
    v.push('"');
    v.push(':');
    v.push('"');
    proof {
        assert(v@ =~= lit_text());
    }
    v
}

/// `,"time":` as a vector.
fn lit_time_vec() -> (v: Vec<char>)
    ensures
        v@ == lit_time(),
{
    let mut v: Vec<char> = Vec::new();
    v.push(',');
    v.push('"');
    v.push('t');
    v.push('i');
    v.push('m');
    v.push('e');
    v.push('"');
    v.push(':');
    proof {
        assert(v@ =~= lit_time());
    }
    v
}

} // verus!
