use vstd::prelude::*;

use crate::chat::Message;
use crate::encode::lemma_escape_round_trip;
use crate::encode::spec_escape;
use crate::encode::spec_escape_char;
use crate::encode::spec_hex_digit;
use crate::encode::spec_message_json;
use crate::encode::spec_messages_inner;
use crate::encode::spec_unescape;
use crate::encode::spec_upstream_body;
use crate::json::digits_end;
use crate::json::elements_end;
use crate::json::exp_end;
use crate::json::frac_end;
use crate::json::int_end;
use crate::json::is_hex;
use crate::json::members_end;
use crate::json::number_end;
use crate::json::spec_is_json_text;
use crate::json::string_end;
use crate::json::string_rest;
use crate::json::value_end;
use crate::json::ws_end;

verus! {

// This module ties the library's halves together. Its first theorem:
// every outbound body that the encoder builds passes the JSON
// well-formedness check that the relay applies to upstream bodies. Its
// second: reading such a body back recovers exactly the inbound
// messages. The lemmas walk the grammar's scanners over the body piece
// by piece.

/// The characters of `p` stand in `s` starting at position `i`.
pub open spec fn occurs_at(s: Seq<char>, i: int, p: Seq<char>) -> bool {
    0 <= i && i + p.len() <= s.len() && s.subrange(i, i + p.len()) == p
}

proof fn lemma_occurs_split(s: Seq<char>, i: int, a: Seq<char>, b: Seq<char>)
    requires
        occurs_at(s, i, a + b),
    ensures
        occurs_at(s, i, a),
        occurs_at(s, i + a.len(), b),
{
    assert forall|k: int| 0 <= k < a.len() implies s[i + k] == a[k] by {
        assert((a + b)[k] == a[k]);
        assert(s.subrange(i, i + (a + b).len())[k] == s[i + k]);
    }
    assert forall|k: int| 0 <= k < b.len() implies s[i + a.len() + k] == b[k] by {
        assert((a + b)[a.len() + k] == b[k]);
        assert(s.subrange(i, i + (a + b).len())[a.len() + k] == s[i + a.len() + k]);
    }
    assert(s.subrange(i, i + a.len()) =~= a);
    assert(s.subrange(i + a.len(), i + a.len() + b.len()) =~= b);
}

proof fn lemma_occurs_index(s: Seq<char>, i: int, p: Seq<char>, k: int)
    requires
        occurs_at(s, i, p),
        0 <= k < p.len(),
    ensures
        s[i + k] == p[k],
{
    assert(s.subrange(i, i + p.len())[k] == s[i + k]);
}

proof fn lemma_occurs_sub(s: Seq<char>, i: int, p: Seq<char>, a: int, b: int)
    requires
        occurs_at(s, i, p),
        0 <= a <= b <= p.len(),
    ensures
        occurs_at(s, i + a, p.subrange(a, b)),
{
    assert(s.subrange(i + a, i + b) =~= p.subrange(a, b));
}

/// Characters that stand for themselves inside a quoted string.
pub open spec fn plain_chars(q: Seq<char>) -> bool {
    forall|k: int|
        0 <= k < q.len() ==> q[k] != '"' && q[k] != '\\' && (#[trigger] q[k] as u32) >= 32
}

/// The scanner crosses a run of plain characters and stops at the
/// closing quote just after it.
proof fn lemma_string_rest_plain(s: Seq<char>, i: int, q: Seq<char>)
    requires
        occurs_at(s, i, q),
        plain_chars(q),
        i + q.len() < s.len(),
        s[i + q.len()] == '"',
    ensures
        string_rest(s, i) == Option::Some(i + q.len() + 1),
    decreases q.len(),
{
    if q.len() == 0 {
        assert(s[i] == '"');
    } else {
        lemma_occurs_index(s, i, q, 0);
        assert(q =~= seq![q[0]] + q.skip(1));
        lemma_occurs_split(s, i, seq![q[0]], q.skip(1));
        assert(plain_chars(q.skip(1)));
        lemma_string_rest_plain(s, i + 1, q.skip(1));
    }
}

proof fn lemma_hex_digit_is_hex(d: nat)
    requires
        d < 16,
    ensures
        is_hex(spec_hex_digit(d)),
{
}

/// The scanner crosses the escaped form of any string and stops at the
/// closing quote just after it: escaping always yields a well-formed
/// string body.
proof fn lemma_string_rest_escaped(s: Seq<char>, i: int, q: Seq<char>)
    requires
        occurs_at(s, i, spec_escape(q)),
        i + spec_escape(q).len() < s.len(),
        s[i + spec_escape(q).len()] == '"',
    ensures
        string_rest(s, i) == Option::Some(i + spec_escape(q).len() + 1),
    decreases q.len(),
{
    if q.len() == 0 {
        assert(s[i] == '"');
    } else {
        let c = q[0];
        let e0 = spec_escape_char(c);
        let rest = spec_escape(q.skip(1));
        assert(spec_escape(q) == e0 + rest);
        lemma_occurs_split(s, i, e0, rest);
        if c == '"' || c == '\\' || c == '\u{8}' || c == '\t' || c == '\n' || c == '\u{c}' || c
            == '\r' {
            lemma_occurs_index(s, i, e0, 0);
            lemma_occurs_index(s, i, e0, 1);
            lemma_string_rest_escaped(s, i + 2, q.skip(1));
        } else if (c as u32) < 32 {
            lemma_occurs_index(s, i, e0, 0);
            lemma_occurs_index(s, i, e0, 1);
            lemma_occurs_index(s, i, e0, 2);
            lemma_occurs_index(s, i, e0, 3);
            lemma_occurs_index(s, i, e0, 4);
            lemma_occurs_index(s, i, e0, 5);
            lemma_hex_digit_is_hex((c as u32 / 16) as nat);
            lemma_hex_digit_is_hex((c as u32 % 16) as nat);
            lemma_string_rest_escaped(s, i + 6, q.skip(1));
        } else {
            lemma_occurs_index(s, i, e0, 0);
            lemma_string_rest_escaped(s, i + 1, q.skip(1));
        }
    }
}

/// The scanner recognises one serialized message as a JSON object and
/// stops just past its closing brace.
proof fn lemma_message_value(s: Seq<char>, p: int, m: Message)
    requires
        occurs_at(s, p, spec_message_json(m)),
    ensures
        value_end(s, p) == Option::Some(p + spec_message_json(m).len()),
{
    reveal_strlit("{\"role\":\"");
    reveal_strlit("\",\"content\":\"");
    reveal_strlit("\"}");
    reveal_strlit("role");
    reveal_strlit("content");
    let l1 = "{\"role\":\""@;
    let l2 = "\",\"content\":\""@;
    let l3 = "\"}"@;
    let er = spec_escape(m.role@);
    let ec = spec_escape(m.content@);
    assert(l1.len() == 9);
    assert(l2.len() == 13);
    assert(l3.len() == 2);
    assert(spec_message_json(m) == l1 + er + l2 + ec + l3);
    lemma_occurs_split(s, p, l1 + er + l2 + ec, l3);
    lemma_occurs_split(s, p, l1 + er + l2, ec);
    lemma_occurs_split(s, p, l1 + er, l2);
    lemma_occurs_split(s, p, l1, er);
    let o2 = p + 9 + er.len();
    let o3 = o2 + 13 + ec.len();
    let q_end = p + spec_message_json(m).len();
    assert(q_end == o3 + 2);
    assert(s[p] == '{') by { lemma_occurs_index(s, p, l1, 0); }
    assert(s[p + 1] == '"') by { lemma_occurs_index(s, p, l1, 1); }
    assert(s[p + 6] == '"') by { lemma_occurs_index(s, p, l1, 6); }
    assert(s[p + 7] == ':') by { lemma_occurs_index(s, p, l1, 7); }
    assert(s[p + 8] == '"') by { lemma_occurs_index(s, p, l1, 8); }
    assert(s[o2] == '"') by { lemma_occurs_index(s, o2, l2, 0); }
    assert(s[o2 + 1] == ',') by { lemma_occurs_index(s, o2, l2, 1); }
    assert(s[o2 + 2] == '"') by { lemma_occurs_index(s, o2, l2, 2); }
    assert(s[o2 + 10] == '"') by { lemma_occurs_index(s, o2, l2, 10); }
    assert(s[o2 + 11] == ':') by { lemma_occurs_index(s, o2, l2, 11); }
    assert(s[o2 + 12] == '"') by { lemma_occurs_index(s, o2, l2, 12); }
    assert(s[o3] == '"') by { lemma_occurs_index(s, o3, l3, 0); }
    assert(s[o3 + 1] == '}') by { lemma_occurs_index(s, o3, l3, 1); }
    lemma_occurs_sub(s, p, l1, 2, 6);
    assert(l1.subrange(2, 6) =~= "role"@);
    assert(plain_chars("role"@));
    lemma_string_rest_plain(s, p + 2, "role"@);
    lemma_string_rest_escaped(s, p + 9, m.role@);
    lemma_occurs_sub(s, o2, l2, 3, 10);
    assert(l2.subrange(3, 10) =~= "content"@);
    assert(plain_chars("content"@));
    lemma_string_rest_plain(s, o2 + 3, "content"@);
    lemma_string_rest_escaped(s, o2 + 13, m.content@);
    assert(ws_end(s, p + 1) == p + 1);
    assert(string_end(s, p + 1) == Option::Some(p + 7));
    assert(ws_end(s, p + 7) == p + 7);
    assert(ws_end(s, p + 8) == p + 8);
    assert(string_end(s, p + 8) == Option::Some(o2 + 1));
    assert(value_end(s, p + 8) == Option::Some(o2 + 1));
    assert(ws_end(s, o2 + 1) == o2 + 1);
    assert(ws_end(s, o2 + 2) == o2 + 2);
    assert(string_end(s, o2 + 2) == Option::Some(o2 + 11));
    assert(ws_end(s, o2 + 11) == o2 + 11);
    assert(ws_end(s, o2 + 12) == o2 + 12);
    assert(string_end(s, o2 + 12) == Option::Some(o3 + 1));
    assert(value_end(s, o2 + 12) == Option::Some(o3 + 1));
    assert(ws_end(s, o3 + 1) == o3 + 1);
    assert(members_end(s, o2 + 2) == Option::Some(o3 + 2));
    assert(members_end(s, p + 1) == Option::Some(o3 + 2));
    assert(value_end(s, p) == Option::Some(q_end));
}

proof fn lemma_msg_starts(m: Message)
    ensures
        spec_message_json(m).len() >= 24,
        spec_message_json(m)[0] == '{',
{
    reveal_strlit("{\"role\":\"");
    reveal_strlit("\",\"content\":\"");
    reveal_strlit("\"}");
}

/// The serialized message list, taken apart at the front: the first
/// message's object, then a comma and the rest.
proof fn lemma_inner_front(ms: Seq<Message>)
    requires
        ms.len() >= 1,
    ensures
        ms.len() == 1 ==> spec_messages_inner(ms) == spec_message_json(ms[0]),
        ms.len() > 1 ==> spec_messages_inner(ms) == spec_message_json(ms[0]) + ","@
            + spec_messages_inner(ms.skip(1)),
    decreases ms.len(),
{
    if ms.len() == 1 {
    } else if ms.len() == 2 {
        assert(ms.drop_last().len() == 1);
        assert(ms.drop_last()[0] == ms[0]);
        assert(ms.skip(1).len() == 1);
        assert(ms.skip(1)[0] == ms.last());
        assert(spec_messages_inner(ms.drop_last()) == spec_message_json(ms[0]));
        assert(spec_messages_inner(ms.skip(1)) == spec_message_json(ms.last()));
        assert(spec_messages_inner(ms) == spec_message_json(ms[0]) + ","@
            + spec_messages_inner(ms.skip(1)));
    } else {
        lemma_inner_front(ms.drop_last());
        assert(ms.skip(1).drop_last() =~= ms.drop_last().skip(1));
        assert(ms.skip(1).last() == ms.last());
        assert(ms.drop_last()[0] == ms[0]);
        assert(spec_messages_inner(ms) =~= spec_message_json(ms[0]) + ","@
            + spec_messages_inner(ms.skip(1)));
    }
}

/// The scanner crosses the serialized message list and consumes the
/// closing bracket just after it.
proof fn lemma_elements_inner(s: Seq<char>, p: int, ms: Seq<Message>)
    requires
        ms.len() >= 1,
        occurs_at(s, p, spec_messages_inner(ms)),
        p + spec_messages_inner(ms).len() < s.len(),
        s[p + spec_messages_inner(ms).len()] == ']',
    ensures
        elements_end(s, p) == Option::Some(p + spec_messages_inner(ms).len() + 1),
    decreases ms.len(),
{
    lemma_inner_front(ms);
    let m0 = spec_message_json(ms[0]);
    if ms.len() == 1 {
        lemma_message_value(s, p, ms[0]);
        assert(ws_end(s, p + m0.len()) == p + m0.len());
        assert(elements_end(s, p) == Option::Some(p + m0.len() + 1));
    } else {
        let rest = spec_messages_inner(ms.skip(1));
        reveal_strlit(",");
        lemma_occurs_split(s, p, m0 + ","@, rest);
        lemma_occurs_split(s, p, m0, ","@);
        lemma_message_value(s, p, ms[0]);
        assert(s[p + m0.len()] == ',') by { lemma_occurs_index(s, p + m0.len(), ","@, 0); }
        assert(ws_end(s, p + m0.len()) == p + m0.len());
        lemma_inner_front(ms.skip(1));
        lemma_msg_starts(ms.skip(1)[0]);
        assert(rest[0] == '{');
        assert(s[p + m0.len() + 1] == '{') by {
            lemma_occurs_index(s, p + m0.len() + 1, rest, 0);
        }
        assert(ws_end(s, p + m0.len() + 1) == p + m0.len() + 1);
        lemma_elements_inner(s, p + m0.len() + 1, ms.skip(1));
        assert(elements_end(s, p) == Option::Some(p + spec_messages_inner(ms).len() + 1));
    }
}

/// The scanner crosses the two fixed members that close every body:
/// `"temperature":0.7` and `"max_tokens":1000`, then the final brace.
proof fn lemma_tail_members(s: Seq<char>, base: int)
    requires
        occurs_at(s, base, "],\"temperature\":0.7,\"max_tokens\":1000}"@),
        base + 38 == s.len(),
    ensures
        members_end(s, base + 2) == Option::Some(base + 38),
{
    reveal_strlit("],\"temperature\":0.7,\"max_tokens\":1000}");
    reveal_strlit("temperature");
    reveal_strlit("max_tokens");
    let b = "],\"temperature\":0.7,\"max_tokens\":1000}"@;
    assert(b.len() == 38);
    assert(s[base + 2] == '\"') by { lemma_occurs_index(s, base, b, 2); }
    assert(s[base + 14] == '\"') by { lemma_occurs_index(s, base, b, 14); }
    assert(s[base + 15] == ':') by { lemma_occurs_index(s, base, b, 15); }
    assert(s[base + 16] == '0') by { lemma_occurs_index(s, base, b, 16); }
    assert(s[base + 17] == '.') by { lemma_occurs_index(s, base, b, 17); }
    assert(s[base + 18] == '7') by { lemma_occurs_index(s, base, b, 18); }
    assert(s[base + 19] == ',') by { lemma_occurs_index(s, base, b, 19); }
    assert(s[base + 20] == '\"') by { lemma_occurs_index(s, base, b, 20); }
    assert(s[base + 31] == '\"') by { lemma_occurs_index(s, base, b, 31); }
    assert(s[base + 32] == ':') by { lemma_occurs_index(s, base, b, 32); }
    assert(s[base + 33] == '1') by { lemma_occurs_index(s, base, b, 33); }
    assert(s[base + 34] == '0') by { lemma_occurs_index(s, base, b, 34); }
    assert(s[base + 35] == '0') by { lemma_occurs_index(s, base, b, 35); }
    assert(s[base + 36] == '0') by { lemma_occurs_index(s, base, b, 36); }
    assert(s[base + 37] == '}') by { lemma_occurs_index(s, base, b, 37); }
    lemma_occurs_sub(s, base, b, 3, 14);
    assert(b.subrange(3, 14) =~= "temperature"@);
    assert(plain_chars("temperature"@));
    lemma_string_rest_plain(s, base + 3, "temperature"@);
    assert(string_end(s, base + 2) == Option::Some(base + 15));
    assert(digits_end(s, base + 19) == base + 19);
    assert(digits_end(s, base + 18) == base + 19);
    assert(exp_end(s, base + 19) == Option::Some(base + 19));
    assert(frac_end(s, base + 17) == Option::Some(base + 19));
    assert(int_end(s, base + 16) == Option::Some(base + 19));
    assert(number_end(s, base + 16) == Option::Some(base + 19));
    assert(value_end(s, base + 16) == Option::Some(base + 19));
    lemma_occurs_sub(s, base, b, 21, 31);
    assert(b.subrange(21, 31) =~= "max_tokens"@);
    assert(plain_chars("max_tokens"@));
    lemma_string_rest_plain(s, base + 21, "max_tokens"@);
    assert(string_end(s, base + 20) == Option::Some(base + 32));
    assert(digits_end(s, base + 37) == base + 37);
    assert(digits_end(s, base + 36) == base + 37);
    assert(digits_end(s, base + 35) == base + 37);
    assert(digits_end(s, base + 34) == base + 37);
    assert(exp_end(s, base + 37) == Option::Some(base + 37));
    assert(frac_end(s, base + 37) == Option::Some(base + 37));
    assert(int_end(s, base + 33) == Option::Some(base + 37));
    assert(number_end(s, base + 33) == Option::Some(base + 37));
    assert(value_end(s, base + 33) == Option::Some(base + 37));
    assert(ws_end(s, base + 15) == base + 15);
    assert(ws_end(s, base + 16) == base + 16);
    assert(ws_end(s, base + 19) == base + 19);
    assert(ws_end(s, base + 20) == base + 20);
    assert(ws_end(s, base + 32) == base + 32);
    assert(ws_end(s, base + 33) == base + 33);
    assert(ws_end(s, base + 37) == base + 37);
    assert(members_end(s, base + 20) == Option::Some(base + 38));
    assert(members_end(s, base + 2) == Option::Some(base + 38));
}

/// The scanner crosses the opening `{"messages":` key of every body.
proof fn lemma_head_key(s: Seq<char>)
    requires
        occurs_at(s, 0, "{\"messages\":["@),
        s.len() > 13,
    ensures
        string_end(s, 1) == Option::Some(11int),
{
    reveal_strlit("{\"messages\":[");
    reveal_strlit("messages");
    let a = "{\"messages\":["@;
    assert(a.len() == 13);
    assert(s[1] == '\"') by { lemma_occurs_index(s, 0, a, 1); }
    assert(s[10] == '\"') by { lemma_occurs_index(s, 0, a, 10); }
    lemma_occurs_sub(s, 0, a, 2, 10);
    assert(a.subrange(2, 10) =~= "messages"@);
    assert(plain_chars("messages"@));
    lemma_string_rest_plain(s, 2, "messages"@);
}

/// The two halves of the library agree: every outbound body that the
/// encoder builds — whatever the inbound messages hold — is well-formed
/// JSON by the very check the relay applies to upstream bodies.
#[verifier::rlimit(100)]
pub proof fn lemma_upstream_body_is_json(ms: Seq<Message>)
    ensures
        spec_is_json_text(spec_upstream_body(ms)),
{
    reveal_strlit("{\"messages\":[");
    reveal_strlit("],\"temperature\":0.7,\"max_tokens\":1000}");
    let a = "{\"messages\":["@;
    let b = "],\"temperature\":0.7,\"max_tokens\":1000}"@;
    let inner = spec_messages_inner(ms);
    let s = spec_upstream_body(ms);
    assert(a.len() == 13 && b.len() == 38);
    assert(s == a + inner + b);
    assert(s.subrange(0, s.len() as int) =~= s);
    lemma_occurs_split(s, 0, a + inner, b);
    lemma_occurs_split(s, 0, a, inner);
    let base = 13 + inner.len() as int;
    assert(s[0] == '{') by { lemma_occurs_index(s, 0, a, 0); }
    assert(s[1] == '"') by { lemma_occurs_index(s, 0, a, 1); }
    assert(s[10] == '"') by { lemma_occurs_index(s, 0, a, 10); }
    assert(s[11] == ':') by { lemma_occurs_index(s, 0, a, 11); }
    assert(s[12] == '[') by { lemma_occurs_index(s, 0, a, 12); }
    assert(s[base] == ']') by { lemma_occurs_index(s, base, b, 0); }
    assert(s[base + 1] == ',') by { lemma_occurs_index(s, base, b, 1); }
    assert(s[base + 2] == '"') by { lemma_occurs_index(s, base, b, 2); }
    // the "messages" key
    lemma_head_key(s);
    // the messages array
    if ms.len() == 0 {
        assert(inner.len() == 0);
        assert(ws_end(s, 13) == 13);
        assert(value_end(s, 12) == Option::Some(base + 1));
    } else {
        lemma_inner_front(ms);
        lemma_msg_starts(ms[0]);
        assert(inner[0] == '{');
        assert(s[13] == '{') by { lemma_occurs_index(s, 13, inner, 0); }
        assert(ws_end(s, 13) == 13);
        lemma_elements_inner(s, 13, ms);
        assert(elements_end(s, 13) == Option::Some(base + 1));
        assert(value_end(s, 12) == Option::Some(base + 1));
    }
    // the two fixed members and the closing brace
    lemma_tail_members(s, base);
    // the whole object, member by member
    assert(ws_end(s, 1) == 1);
    assert(ws_end(s, 11) == 11);
    assert(ws_end(s, 12) == 12);
    assert(ws_end(s, base + 1) == base + 1);
    assert(ws_end(s, base + 2) == base + 2);
    assert(members_end(s, 1) == Option::Some(base + 38));
    assert(value_end(s, 0) == Option::Some(base + 38));
    assert(base + 38 == s.len());
    assert(ws_end(s, 0) == 0);
    assert(ws_end(s, s.len() as int) == s.len());
    assert(spec_is_json_text(s));
}

// The spec functions below read a body back: they find each message
// object in the text, decode its two strings, and collect the pairs.
// The closing theorem says that on every body the encoder builds they
// recover exactly the inbound messages — nothing is added, dropped,
// reordered or altered on the way out.

/// The decoded text of the JSON string whose opening quote stands at
/// `i`, with the position just past its closing quote.
pub open spec fn string_content(s: Seq<char>, i: int) -> Option<(int, Seq<char>)> {
    match string_end(s, i) {
        Option::Some(e) => match spec_unescape(s.subrange(i + 1, e - 1)) {
            Option::Some(q) => Option::Some((e, q)),
            Option::None => Option::None,
        },
        Option::None => Option::None,
    }
}

/// One message object as the encoder writes it — `{"role":R,"content":C}`
/// — decoded into the position just past it, the role and the content.
pub open spec fn message_at(s: Seq<char>, p: int) -> Option<(int, Seq<char>, Seq<char>)> {
    if occurs_at(s, p, "{\"role\":"@) {
        match string_content(s, p + 8) {
            Option::Some((e1, role)) => {
                if occurs_at(s, e1, ",\"content\":"@) {
                    match string_content(s, e1 + 11) {
                        Option::Some((e2, content)) => {
                            if e2 < s.len() && s[e2] == '}' {
                                Option::Some((e2 + 1, role, content))
                            } else {
                                Option::None
                            }
                        },
                        Option::None => Option::None,
                    }
                } else {
                    Option::None
                }
            },
            Option::None => Option::None,
        }
    } else {
        Option::None
    }
}

/// The message list from `p` on: message objects separated by commas.
/// The bracket that closes the list is not consumed.
pub open spec fn messages_from(s: Seq<char>, p: int) -> Option<(int, Seq<(Seq<char>, Seq<char>)>)>
    decreases s.len() - p,
{
    match message_at(s, p) {
        Option::Some((e, role, content)) => {
            if e < s.len() && s[e] == ',' {
                if p < e + 1 && e + 1 <= s.len() {
                    match messages_from(s, e + 1) {
                        Option::Some((e2, rest)) => Option::Some(
                            (e2, seq![(role, content)] + rest),
                        ),
                        Option::None => Option::None,
                    }
                } else {
                    Option::None
                }
            } else {
                Option::Some((e, seq![(role, content)]))
            }
        },
        Option::None => Option::None,
    }
}

/// The messages a body carries, read back from the text alone: defined
/// exactly on bodies of the shape the encoder emits.
pub open spec fn spec_messages_of_body(s: Seq<char>) -> Option<Seq<(Seq<char>, Seq<char>)>> {
    if occurs_at(s, 0, "{\"messages\":["@) {
        if s.len() == 51 && occurs_at(s, 13, "],\"temperature\":0.7,\"max_tokens\":1000}"@) {
            Option::Some(Seq::<(Seq<char>, Seq<char>)>::empty())
        } else {
            match messages_from(s, 13) {
                Option::Some((e, msgs)) => {
                    if e + 38 == s.len() && occurs_at(
                        s,
                        e,
                        "],\"temperature\":0.7,\"max_tokens\":1000}"@,
                    ) {
                        Option::Some(msgs)
                    } else {
                        Option::None
                    }
                },
                Option::None => Option::None,
            }
        }
    } else {
        Option::None
    }
}

/// Reading one serialized message back yields exactly its role and
/// content.
proof fn lemma_message_extract(s: Seq<char>, p: int, m: Message)
    requires
        occurs_at(s, p, spec_message_json(m)),
    ensures
        message_at(s, p) == Option::Some(
            (p + spec_message_json(m).len(), m.role@, m.content@),
        ),
{
    reveal_strlit("{\"role\":\"");
    reveal_strlit("\",\"content\":\"");
    reveal_strlit("\"}");
    reveal_strlit("{\"role\":");
    reveal_strlit(",\"content\":");
    let l1 = "{\"role\":\""@;
    let l2 = "\",\"content\":\""@;
    let l3 = "\"}"@;
    let er = spec_escape(m.role@);
    let ec = spec_escape(m.content@);
    assert(l1.len() == 9);
    assert(l2.len() == 13);
    assert(l3.len() == 2);
    assert(spec_message_json(m) == l1 + er + l2 + ec + l3);
    lemma_occurs_split(s, p, l1 + er + l2 + ec, l3);
    lemma_occurs_split(s, p, l1 + er + l2, ec);
    lemma_occurs_split(s, p, l1 + er, l2);
    lemma_occurs_split(s, p, l1, er);
    let o2 = p + 9 + er.len();
    let o3 = o2 + 13 + ec.len();
    assert(s[p + 8] == '"') by { lemma_occurs_index(s, p, l1, 8); }
    assert(s[o2] == '"') by { lemma_occurs_index(s, o2, l2, 0); }
    assert(s[o2 + 12] == '"') by { lemma_occurs_index(s, o2, l2, 12); }
    assert(s[o3] == '"') by { lemma_occurs_index(s, o3, l3, 0); }
    assert(s[o3 + 1] == '}') by { lemma_occurs_index(s, o3, l3, 1); }
    // the opening `{"role":` of the object
    lemma_occurs_sub(s, p, l1, 0, 8);
    assert(l1.subrange(0, 8) =~= "{\"role\":"@);
    // the role string and its decoding
    lemma_string_rest_escaped(s, p + 9, m.role@);
    assert(string_end(s, p + 8) == Option::Some(o2 + 1));
    assert(s.subrange(p + 9, o2) == er);
    lemma_escape_round_trip(m.role@);
    assert(string_content(s, p + 8) == Option::Some((o2 + 1, m.role@)));
    // the `,"content":` between the two strings
    lemma_occurs_sub(s, o2, l2, 1, 12);
    assert(l2.subrange(1, 12) =~= ",\"content\":"@);
    // the content string and its decoding
    lemma_string_rest_escaped(s, o2 + 13, m.content@);
    assert(string_end(s, o2 + 12) == Option::Some(o3 + 1));
    assert(s.subrange(o2 + 13, o3) == ec);
    lemma_escape_round_trip(m.content@);
    assert(string_content(s, o2 + 12) == Option::Some((o3 + 1, m.content@)));
}

/// Reading the serialized message list back yields exactly the
/// inbound pairs, in order.
proof fn lemma_messages_from(s: Seq<char>, p: int, ms: Seq<Message>)
    requires
        ms.len() >= 1,
        occurs_at(s, p, spec_messages_inner(ms)),
        p + spec_messages_inner(ms).len() < s.len(),
        s[p + spec_messages_inner(ms).len()] == ']',
    ensures
        messages_from(s, p) == Option::Some(
            (
                p + spec_messages_inner(ms).len(),
                ms.map_values(|m: Message| (m.role@, m.content@)),
            ),
        ),
    decreases ms.len(),
{
    let pairs = ms.map_values(|m: Message| (m.role@, m.content@));
    lemma_inner_front(ms);
    let m0 = spec_message_json(ms[0]);
    if ms.len() == 1 {
        lemma_message_extract(s, p, ms[0]);
        assert(seq![(ms[0].role@, ms[0].content@)] =~= pairs);
    } else {
        let rest = spec_messages_inner(ms.skip(1));
        reveal_strlit(",");
        lemma_occurs_split(s, p, m0 + ","@, rest);
        lemma_occurs_split(s, p, m0, ","@);
        lemma_message_extract(s, p, ms[0]);
        assert(s[p + m0.len()] == ',') by { lemma_occurs_index(s, p + m0.len(), ","@, 0); }
        lemma_messages_from(s, p + m0.len() + 1, ms.skip(1));
        let rest_pairs = ms.skip(1).map_values(|m: Message| (m.role@, m.content@));
        assert(seq![(ms[0].role@, ms[0].content@)] + rest_pairs =~= pairs);
    }
}

/// The body determines the messages: reading back any body the encoder
/// builds yields exactly the inbound messages, in order, with their
/// role and content texts unmodified.
pub proof fn lemma_messages_recovered(ms: Seq<Message>)
    ensures
        spec_messages_of_body(spec_upstream_body(ms)) == Option::Some(
            ms.map_values(|m: Message| (m.role@, m.content@)),
        ),
{
    reveal_strlit("{\"messages\":[");
    reveal_strlit("],\"temperature\":0.7,\"max_tokens\":1000}");
    let a = "{\"messages\":["@;
    let b = "],\"temperature\":0.7,\"max_tokens\":1000}"@;
    let inner = spec_messages_inner(ms);
    let s = spec_upstream_body(ms);
    let pairs = ms.map_values(|m: Message| (m.role@, m.content@));
    assert(a.len() == 13 && b.len() == 38);
    assert(s == a + inner + b);
    assert(s.subrange(0, s.len() as int) =~= s);
    lemma_occurs_split(s, 0, a + inner, b);
    lemma_occurs_split(s, 0, a, inner);
    let base = 13 + inner.len() as int;
    if ms.len() == 0 {
        assert(inner.len() == 0);
        assert(s.len() == 51);
        assert(pairs =~= Seq::<(Seq<char>, Seq<char>)>::empty());
    } else {
        lemma_msg_starts(ms[0]);
        lemma_inner_front(ms);
        assert(inner.len() >= 24);
        assert(s.len() != 51);
        lemma_messages_from(s, 13, ms);
        assert(messages_from(s, 13) == Option::Some((base, pairs)));
    }
}

} // verus!
