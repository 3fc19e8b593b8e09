use vstd::prelude::*;
use vstd::string::*;

use crate::chat::ChatRequest;
use crate::chat::Message;

verus! {

/// The hexadecimal digit character for a value below sixteen.
pub open spec fn spec_hex_digit(d: nat) -> char {
    if d == 0 { '0' }
    else if d == 1 { '1' }
    else if d == 2 { '2' }
    else if d == 3 { '3' }
    else if d == 4 { '4' }
    else if d == 5 { '5' }
    else if d == 6 { '6' }
    else if d == 7 { '7' }
    else if d == 8 { '8' }
    else if d == 9 { '9' }
    else if d == 10 { 'a' }
    else if d == 11 { 'b' }
    else if d == 12 { 'c' }
    else if d == 13 { 'd' }
    else if d == 14 { 'e' }
    else { 'f' }
}

/// How one character appears inside a quoted JSON string: quotes and
/// backslashes are escaped, the named control characters get their short
/// escapes, the remaining control characters get a `\u00XX` escape, and
/// every other character stands as itself.
pub open spec fn spec_escape_char(c: char) -> Seq<char> {
    if c == '"' { seq!['\\', '"'] }
    else if c == '\\' { seq!['\\', '\\'] }
    else if c == '\u{8}' { seq!['\\', 'b'] }
    else if c == '\t' { seq!['\\', 't'] }
    else if c == '\n' { seq!['\\', 'n'] }
    else if c == '\u{c}' { seq!['\\', 'f'] }
    else if c == '\r' { seq!['\\', 'r'] }
    else if (c as u32) < 32 {
        seq!['\\', 'u', '0', '0',
             spec_hex_digit((c as u32 / 16) as nat),
             spec_hex_digit((c as u32 % 16) as nat)]
    }
    else { seq![c] }
}

/// A whole string as it appears inside quotes: each character escaped.
pub open spec fn spec_escape(s: Seq<char>) -> Seq<char>
    decreases s.len(),
{
    if s.len() == 0 {
        Seq::<char>::empty()
    } else {
        spec_escape_char(s[0]) + spec_escape(s.skip(1))
    }
}

/// The JSON object for one message: role first, then content.
pub open spec fn spec_message_json(m: Message) -> Seq<char> {
    "{\"role\":\""@ + spec_escape(m.role@) + "\",\"content\":\""@
        + spec_escape(m.content@) + "\"}"@
}

/// The comma-separated bodies of the messages array, without brackets.
pub open spec fn spec_messages_inner(ms: Seq<Message>) -> Seq<char>
    decreases ms.len(),
{
    if ms.len() == 0 {
        Seq::<char>::empty()
    } else if ms.len() == 1 {
        spec_message_json(ms[0])
    } else {
        spec_messages_inner(ms.drop_last()) + ","@ + spec_message_json(ms.last())
    }
}

/// The outbound request body: the inbound messages in order, then the
/// fixed generation parameters. The constants are part of the contract:
/// temperature 0.7 and max_tokens 1000, never read from the inbound
/// request.
pub open spec fn spec_upstream_body(ms: Seq<Message>) -> Seq<char> {
    "{\"messages\":["@ + spec_messages_inner(ms) + "],\"temperature\":0.7,\"max_tokens\":1000}"@
}

/// The character a short escape letter stands for.
pub open spec fn spec_short_unescape(c: char) -> Option<char> {
    if c == '"' { Option::Some('"') }
    else if c == '\\' { Option::Some('\\') }
    else if c == '/' { Option::Some('/') }
    else if c == 'b' { Option::Some('\u{8}') }
    else if c == 'f' { Option::Some('\u{c}') }
    else if c == 'n' { Option::Some('\n') }
    else if c == 'r' { Option::Some('\r') }
    else if c == 't' { Option::Some('\t') }
    else { Option::None }
}

/// The value of a lowercase hexadecimal digit.
pub open spec fn spec_hex_val(c: char) -> Option<nat> {
    if c == '0' { Option::Some(0nat) }
    else if c == '1' { Option::Some(1nat) }
    else if c == '2' { Option::Some(2nat) }
    else if c == '3' { Option::Some(3nat) }
    else if c == '4' { Option::Some(4nat) }
    else if c == '5' { Option::Some(5nat) }
    else if c == '6' { Option::Some(6nat) }
    else if c == '7' { Option::Some(7nat) }
    else if c == '8' { Option::Some(8nat) }
    else if c == '9' { Option::Some(9nat) }
    else if c == 'a' { Option::Some(10nat) }
    else if c == 'b' { Option::Some(11nat) }
    else if c == 'c' { Option::Some(12nat) }
    else if c == 'd' { Option::Some(13nat) }
    else if c == 'e' { Option::Some(14nat) }
    else if c == 'f' { Option::Some(15nat) }
    else { Option::None }
}

/// The control character with the given code, for codes below 32.
pub open spec fn spec_control_of(n: nat) -> char {
    if n == 0 { '\u{0}' }
    else if n == 1 { '\u{1}' }
    else if n == 2 { '\u{2}' }
    else if n == 3 { '\u{3}' }
    else if n == 4 { '\u{4}' }
    else if n == 5 { '\u{5}' }
    else if n == 6 { '\u{6}' }
    else if n == 7 { '\u{7}' }
    else if n == 8 { '\u{8}' }
    else if n == 9 { '\u{9}' }
    else if n == 10 { '\u{a}' }
    else if n == 11 { '\u{b}' }
    else if n == 12 { '\u{c}' }
    else if n == 13 { '\u{d}' }
    else if n == 14 { '\u{e}' }
    else if n == 15 { '\u{f}' }
    else if n == 16 { '\u{10}' }
    else if n == 17 { '\u{11}' }
    else if n == 18 { '\u{12}' }
    else if n == 19 { '\u{13}' }
    else if n == 20 { '\u{14}' }
    else if n == 21 { '\u{15}' }
    else if n == 22 { '\u{16}' }
    else if n == 23 { '\u{17}' }
    else if n == 24 { '\u{18}' }
    else if n == 25 { '\u{19}' }
    else if n == 26 { '\u{1a}' }
    else if n == 27 { '\u{1b}' }
    else if n == 28 { '\u{1c}' }
    else if n == 29 { '\u{1d}' }
    else if n == 30 { '\u{1e}' }
    else { '\u{1f}' }
}

/// Puts one decoded character in front of a decoded rest, if any.
pub open spec fn opt_cons(c: char, rest: Option<Seq<char>>) -> Option<Seq<char>> {
    match rest {
        Option::Some(t) => Option::Some(seq![c] + t),
        Option::None => Option::None,
    }
}

/// The decoding of a string body: the partial inverse of `spec_escape`.
/// It decodes exactly the forms the escaper emits — short escapes,
/// `\u00XX` escapes of control characters, and plain characters — and
/// is undefined (`None`) on anything else.
pub open spec fn spec_unescape(s: Seq<char>) -> Option<Seq<char>>
    decreases s.len(),
{
    if s.len() == 0 {
        Option::Some(Seq::<char>::empty())
    } else if s[0] == '\\' {
        if s.len() >= 2 && spec_short_unescape(s[1]) is Some {
            match spec_short_unescape(s[1]) {
                Option::Some(c) => opt_cons(c, spec_unescape(s.skip(2))),
                Option::None => Option::None,
            }
        } else if s.len() >= 6 && s[1] == 'u' && s[2] == '0' && s[3] == '0' && spec_hex_val(s[4])
            is Some && spec_hex_val(s[5]) is Some {
            match (spec_hex_val(s[4]), spec_hex_val(s[5])) {
                (Option::Some(h), Option::Some(l)) => {
                    if 16 * h + l < 32 {
                        opt_cons(spec_control_of(16 * h + l), spec_unescape(s.skip(6)))
                    } else {
                        Option::None
                    }
                },
                _ => Option::None,
            }
        } else {
            Option::None
        }
    } else if s[0] == '"' || (s[0] as u32) < 32 {
        Option::None
    } else {
        opt_cons(s[0], spec_unescape(s.skip(1)))
    }
}

proof fn lemma_hex_digit_val(d: nat)
    requires
        d < 16,
    ensures
        spec_hex_val(spec_hex_digit(d)) == Option::Some(d),
{
}

proof fn lemma_control_of(c: char)
    requires
        (c as u32) < 32,
    ensures
        spec_control_of((c as u32) as nat) == c,
{
}

/// Decoding consumes the escape of one character and yields exactly
/// that character back, whatever follows it.
proof fn lemma_unescape_cons(c: char, t: Seq<char>)
    ensures
        spec_unescape(spec_escape_char(c) + t) == opt_cons(c, spec_unescape(t)),
{
    let e = spec_escape_char(c);
    let s = e + t;
    if c == '"' || c == '\\' || c == '\u{8}' || c == '\t' || c == '\n' || c == '\u{c}' || c
        == '\r' {
        assert(s[0] == '\\');
        assert(s.skip(2) =~= t);
    } else if (c as u32) < 32 {
        let code = (c as u32) as nat;
        assert(s[0] == '\\' && s[1] == 'u' && s[2] == '0' && s[3] == '0');
        assert(s[4] == spec_hex_digit(code / 16));
        assert(s[5] == spec_hex_digit(code % 16));
        lemma_hex_digit_val(code / 16);
        lemma_hex_digit_val(code % 16);
        assert(16 * (code / 16) + (code % 16) == code);
        lemma_control_of(c);
        assert(s.skip(6) =~= t);
    } else {
        assert(s[0] == c);
        assert(s.skip(1) =~= t);
    }
}

/// Escaping loses nothing: decoding the escaped form of any string
/// gives the string back. With the body contract this says that the
/// inbound message texts stand in the outbound body unmodified.
pub proof fn lemma_escape_round_trip(s: Seq<char>)
    ensures
        spec_unescape(spec_escape(s)) == Option::Some(s),
    decreases s.len(),
{
    if s.len() == 0 {
    } else {
        lemma_escape_round_trip(s.skip(1));
        lemma_unescape_cons(s[0], spec_escape(s.skip(1)));
        assert(seq![s[0]] + s.skip(1) =~= s);
    }
}

/// Every outbound body carries the fixed generation parameters:
/// whatever the inbound messages hold, the body ends with the exact
/// text `,"temperature":0.7,"max_tokens":1000}`. The values are never
/// read from the inbound request.
pub proof fn lemma_params_injected(ms: Seq<Message>)
    ensures
        spec_upstream_body(ms).len() > (",\"temperature\":0.7,\"max_tokens\":1000}"@).len(),
        spec_upstream_body(ms).skip(
            spec_upstream_body(ms).len() - (",\"temperature\":0.7,\"max_tokens\":1000}"@).len(),
        ) == ",\"temperature\":0.7,\"max_tokens\":1000}"@,
{
    reveal_strlit("{\"messages\":[");
    reveal_strlit("],\"temperature\":0.7,\"max_tokens\":1000}");
    reveal_strlit(",\"temperature\":0.7,\"max_tokens\":1000}");
    let a = "{\"messages\":["@;
    let b = "],\"temperature\":0.7,\"max_tokens\":1000}"@;
    let t = ",\"temperature\":0.7,\"max_tokens\":1000}"@;
    let body = spec_upstream_body(ms);
    assert(b.len() == 38);
    assert(t.len() == 37);
    assert(b.skip(1) =~= t);
    assert(body == a + spec_messages_inner(ms) + b);
    assert(body.skip(body.len() - 37) =~= t);
}

fn hex_digit(d: u32) -> (c: char)
    requires
        d < 16,
    ensures
        c == spec_hex_digit(d as nat),
{
    if d == 0 { '0' }
    else if d == 1 { '1' }
    else if d == 2 { '2' }
    else if d == 3 { '3' }
    else if d == 4 { '4' }
    else if d == 5 { '5' }
    else if d == 6 { '6' }
    else if d == 7 { '7' }
    else if d == 8 { '8' }
    else if d == 9 { '9' }
    else if d == 10 { 'a' }
    else if d == 11 { 'b' }
    else if d == 12 { 'c' }
    else if d == 13 { 'd' }
    else if d == 14 { 'e' }
    else { 'f' }
}

/// Appends the characters of a literal to the output.
fn push_str_chars(out: &mut Vec<char>, s: &str)
    ensures
        final(out)@ == old(out)@ + s@,
{
    let n: usize = s.unicode_len();
    let mut i: usize = 0;
    while i < n
        invariant
            n == s@.len(),
            i <= n,
            out@ == old(out)@ + s@.take(i as int),
        decreases n - i,
    {
        let c = s.get_char(i);
        out.push(c);
        proof {
            assert(s@.take(i as int).push(s@[i as int]) =~= s@.take(i + 1 as int));
        }
        i += 1;
    }
    proof {
        assert(s@.take(n as int) =~= s@);
    }
}

fn push_escaped_char(out: &mut Vec<char>, c: char)
    ensures
        final(out)@ == old(out)@ + spec_escape_char(c),
{
    if c == '"' {
        out.push('\\');
        out.push('"');
        assert(out@ =~= old(out)@ + spec_escape_char(c));
    } else if c == '\\' {
        out.push('\\');
        out.push('\\');
        assert(out@ =~= old(out)@ + spec_escape_char(c));
    } else if c == '\u{8}' {
        out.push('\\');
        out.push('b');
        assert(out@ =~= old(out)@ + spec_escape_char(c));
    } else if c == '\t' {
        out.push('\\');
        out.push('t');
        assert(out@ =~= old(out)@ + spec_escape_char(c));
    } else if c == '\n' {
        out.push('\\');
        out.push('n');
        assert(out@ =~= old(out)@ + spec_escape_char(c));
    } else if c == '\u{c}' {
        out.push('\\');
        out.push('f');
        assert(out@ =~= old(out)@ + spec_escape_char(c));
    } else if c == '\r' {
        out.push('\\');
        out.push('r');
        assert(out@ =~= old(out)@ + spec_escape_char(c));
    } else if (c as u32) < 32 {
        out.push('\\');
        out.push('u');
        out.push('0');
        out.push('0');
        out.push(hex_digit((c as u32) / 16));
        out.push(hex_digit((c as u32) % 16));
        assert(out@ =~= old(out)@ + spec_escape_char(c));
    } else {
        out.push(c);
        assert(out@ =~= old(out)@ + spec_escape_char(c));
    }
}

/// Escaping one more character at the end extends the escaped string.
proof fn lemma_escape_snoc(s: Seq<char>, c: char)
    ensures
        spec_escape(s.push(c)) == spec_escape(s) + spec_escape_char(c),
    decreases s.len(),
{
    if s.len() == 0 {
        assert(s.push(c).skip(1) =~= Seq::<char>::empty());
        assert(s.push(c)[0] == c);
        assert(spec_escape(Seq::<char>::empty()) == Seq::<char>::empty());
        assert(spec_escape(s.push(c)) == spec_escape_char(c) + Seq::<char>::empty());
        assert(spec_escape(s.push(c)) =~= spec_escape(s) + spec_escape_char(c));
    } else {
        assert(s.push(c).skip(1) =~= s.skip(1).push(c));
        lemma_escape_snoc(s.skip(1), c);
        assert(spec_escape(s.push(c)) =~= spec_escape(s) + spec_escape_char(c));
    }
}

/// Appends the escaped form of a whole string to the output.
fn push_escaped(out: &mut Vec<char>, s: &String)
    ensures
        final(out)@ == old(out)@ + spec_escape(s@),
{
    let sl: &str = s.as_str();
    let n: usize = sl.unicode_len();
    let mut i: usize = 0;
    while i < n
        invariant
            sl@ == s@,
            n == s@.len(),
            i <= n,
            out@ == old(out)@ + spec_escape(s@.take(i as int)),
        decreases n - i,
    {
        let c = sl.get_char(i);
        push_escaped_char(out, c);
        proof {
            lemma_escape_snoc(s@.take(i as int), s@[i as int]);
            assert(s@.take(i as int).push(s@[i as int]) =~= s@.take(i + 1 as int));
        }
        i += 1;
    }
    proof {
        assert(s@.take(n as int) =~= s@);
    }
}

fn push_message(out: &mut Vec<char>, m: &Message)
    ensures
        final(out)@ == old(out)@ + spec_message_json(*m),
{
    push_str_chars(out, "{\"role\":\"");
    push_escaped(out, &m.role);
    push_str_chars(out, "\",\"content\":\"");
    push_escaped(out, &m.content);
    push_str_chars(out, "\"}");
    assert(out@ =~= old(out)@ + spec_message_json(*m));
}

/// Builds the outbound request body for the upstream service: exactly
/// the inbound messages, in order and unmodified, followed by the fixed
/// parameters temperature 0.7 and max_tokens 1000.
pub fn upstream_body_chars(req: &ChatRequest) -> (r: Vec<char>)
    ensures
        r@ == spec_upstream_body(req.messages@),
{
    let mut out: Vec<char> = Vec::new();
    push_str_chars(&mut out, "{\"messages\":[");
    let n: usize = req.messages.len();
    let mut i: usize = 0;
    while i < n
        invariant
            n == req.messages@.len(),
            i <= n,
            out@ == "{\"messages\":["@ + spec_messages_inner(req.messages@.take(i as int)),
        decreases n - i,
    {
        if i > 0 {
            push_str_chars(&mut out, ",");
        }
        push_message(&mut out, &req.messages[i]);
        proof {
            let ms = req.messages@;
            assert(ms.take(i + 1 as int).drop_last() =~= ms.take(i as int));
            assert(ms.take(i + 1 as int).last() == ms[i as int]);
            assert(out@ =~= "{\"messages\":["@ + spec_messages_inner(ms.take(i + 1 as int)));
        }
        i += 1;
    }
    proof {
        assert(req.messages@.take(n as int) =~= req.messages@);
    }
    push_str_chars(&mut out, "],\"temperature\":0.7,\"max_tokens\":1000}");
    proof {
        assert(out@ =~= spec_upstream_body(req.messages@));
    }
    out
}

} // verus!
