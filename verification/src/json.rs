use vstd::prelude::*;

verus! {

// The grammar below follows the JSON interchange syntax: a text is one
// value surrounded by optional whitespace; values are objects, arrays,
// strings, numbers, `true`, `false` and `null`. Each spec function
// yields the position just past the construct that starts at `i`, or
// `None` where no well-formed construct starts there. The comparisons
// `i < j` and `j <= s.len()` that guard the recursive calls always hold
// when reached; they make the descent of the measure evident.

/// JSON insignificant whitespace.
pub open spec fn is_ws(c: char) -> bool {
    c == ' ' || c == '\t' || c == '\n' || c == '\r'
}

/// An ASCII decimal digit.
pub open spec fn is_digit(c: char) -> bool {
    48 <= c as u32 && c as u32 <= 57
}

/// An ASCII hexadecimal digit, either case.
pub open spec fn is_hex(c: char) -> bool {
    is_digit(c) || (97 <= c as u32 && c as u32 <= 102) || (65 <= c as u32 && c as u32 <= 70)
}

/// The escapes of one letter: `\"`, `\\`, `\/`, `\b`, `\f`, `\n`, `\r`, `\t`.
pub open spec fn is_short_escape(c: char) -> bool {
    c == '"' || c == '\\' || c == '/' || c == 'b' || c == 'f' || c == 'n' || c == 'r'
        || c == 't'
}

/// First position at or after `i` that does not hold whitespace.
pub open spec fn ws_end(s: Seq<char>, i: int) -> int
    decreases s.len() - i,
{
    if 0 <= i && i < s.len() && is_ws(s[i]) {
        ws_end(s, i + 1)
    } else {
        i
    }
}

/// First position at or after `i` that does not hold a digit.
pub open spec fn digits_end(s: Seq<char>, i: int) -> int
    decreases s.len() - i,
{
    if 0 <= i && i < s.len() && is_digit(s[i]) {
        digits_end(s, i + 1)
    } else {
        i
    }
}

/// Scans the inside of a quoted string from `i` to just past the
/// closing quote: unescaped characters may not be controls, a backslash
/// starts a short escape or a `\u` escape with four hexadecimal digits.
pub open spec fn string_rest(s: Seq<char>, i: int) -> Option<int>
    decreases s.len() - i,
{
    if !(0 <= i && i < s.len()) {
        Option::None
    } else if s[i] == '"' {
        Option::Some(i + 1)
    } else if s[i] == '\\' {
        if i + 2 <= s.len() && is_short_escape(s[i + 1]) {
            string_rest(s, i + 2)
        } else if i + 6 <= s.len() && s[i + 1] == 'u' && is_hex(s[i + 2]) && is_hex(s[i + 3])
            && is_hex(s[i + 4]) && is_hex(s[i + 5]) {
            string_rest(s, i + 6)
        } else {
            Option::None
        }
    } else if (s[i] as u32) < 32 {
        Option::None
    } else {
        string_rest(s, i + 1)
    }
}

/// Position just past a JSON string whose opening quote stands at `i`.
pub open spec fn string_end(s: Seq<char>, i: int) -> Option<int> {
    if 0 <= i && i < s.len() && s[i] == '"' {
        string_rest(s, i + 1)
    } else {
        Option::None
    }
}

/// Position just past an optional exponent part at `i`.
pub open spec fn exp_end(s: Seq<char>, i: int) -> Option<int> {
    if 0 <= i && i < s.len() && (s[i] == 'e' || s[i] == 'E') {
        let j = if i + 1 < s.len() && (s[i + 1] == '+' || s[i + 1] == '-') {
            i + 2
        } else {
            i + 1
        };
        if j < s.len() && is_digit(s[j]) {
            Option::Some(digits_end(s, j + 1))
        } else {
            Option::None
        }
    } else {
        Option::Some(i)
    }
}

/// Position just past an optional fraction part at `i`, then the
/// optional exponent.
pub open spec fn frac_end(s: Seq<char>, i: int) -> Option<int> {
    if 0 <= i && i < s.len() && s[i] == '.' {
        if i + 1 < s.len() && is_digit(s[i + 1]) {
            exp_end(s, digits_end(s, i + 1))
        } else {
            Option::None
        }
    } else {
        exp_end(s, i)
    }
}

/// Position just past the integer part at `i`: a single zero, or a
/// nonzero digit followed by further digits.
pub open spec fn int_end(s: Seq<char>, i: int) -> Option<int> {
    if 0 <= i && i < s.len() && s[i] == '0' {
        frac_end(s, i + 1)
    } else if 0 <= i && i < s.len() && is_digit(s[i]) {
        frac_end(s, digits_end(s, i + 1))
    } else {
        Option::None
    }
}

/// Position just past a JSON number starting at `i`.
pub open spec fn number_end(s: Seq<char>, i: int) -> Option<int> {
    if 0 <= i && i < s.len() && s[i] == '-' {
        int_end(s, i + 1)
    } else {
        int_end(s, i)
    }
}

/// Position just past the JSON value starting at `i`.
pub open spec fn value_end(s: Seq<char>, i: int) -> Option<int>
    decreases s.len() - i, 0int,
{
    if !(0 <= i && i < s.len()) {
        Option::None
    } else if s[i] == '"' {
        string_end(s, i)
    } else if s[i] == '{' {
        let j = ws_end(s, i + 1);
        if j < s.len() && s[j] == '}' {
            Option::Some(j + 1)
        } else if i < j && j <= s.len() {
            members_end(s, j)
        } else {
            Option::None
        }
    } else if s[i] == '[' {
        let j = ws_end(s, i + 1);
        if j < s.len() && s[j] == ']' {
            Option::Some(j + 1)
        } else if i < j && j <= s.len() {
            elements_end(s, j)
        } else {
            Option::None
        }
    } else if s[i] == 't' {
        if i + 4 <= s.len() && s[i + 1] == 'r' && s[i + 2] == 'u' && s[i + 3] == 'e' {
            Option::Some(i + 4)
        } else {
            Option::None
        }
    } else if s[i] == 'f' {
        if i + 5 <= s.len() && s[i + 1] == 'a' && s[i + 2] == 'l' && s[i + 3] == 's'
            && s[i + 4] == 'e' {
            Option::Some(i + 5)
        } else {
            Option::None
        }
    } else if s[i] == 'n' {
        if i + 4 <= s.len() && s[i + 1] == 'u' && s[i + 2] == 'l' && s[i + 3] == 'l' {
            Option::Some(i + 4)
        } else {
            Option::None
        }
    } else if s[i] == '-' || is_digit(s[i]) {
        number_end(s, i)
    } else {
        Option::None
    }
}

/// The members of an object, from the first key at `i` through the
/// closing brace.
pub open spec fn members_end(s: Seq<char>, i: int) -> Option<int>
    decreases s.len() - i, 1int,
{
    match string_end(s, i) {
        Option::None => Option::None,
        Option::Some(k) => {
            let c = ws_end(s, k);
            if 0 <= c && c < s.len() && s[c] == ':' {
                let v = ws_end(s, c + 1);
                if i <= v && v <= s.len() {
                    match value_end(s, v) {
                        Option::None => Option::None,
                        Option::Some(e) => {
                            let w = ws_end(s, e);
                            if 0 <= w && w < s.len() && s[w] == '}' {
                                Option::Some(w + 1)
                            } else if 0 <= w && w < s.len() && s[w] == ',' {
                                let n = ws_end(s, w + 1);
                                if i < n && n <= s.len() {
                                    members_end(s, n)
                                } else {
                                    Option::None
                                }
                            } else {
                                Option::None
                            }
                        }
                    }
                } else {
                    Option::None
                }
            } else {
                Option::None
            }
        }
    }
}

/// The elements of an array, from the first element at `i` through the
/// closing bracket.
pub open spec fn elements_end(s: Seq<char>, i: int) -> Option<int>
    decreases s.len() - i, 1int,
{
    if 0 <= i && i <= s.len() {
        match value_end(s, i) {
            Option::None => Option::None,
            Option::Some(e) => {
                let w = ws_end(s, e);
                if 0 <= w && w < s.len() && s[w] == ']' {
                    Option::Some(w + 1)
                } else if 0 <= w && w < s.len() && s[w] == ',' {
                    let n = ws_end(s, w + 1);
                    if i < n && n <= s.len() {
                        elements_end(s, n)
                    } else {
                        Option::None
                    }
                } else {
                    Option::None
                }
            }
        }
    } else {
        Option::None
    }
}

/// Whether the whole character sequence is one JSON value with optional
/// surrounding whitespace: the well-formedness that the relay demands
/// of an upstream body before it is passed on.
pub open spec fn spec_is_json_text(s: Seq<char>) -> bool {
    match value_end(s, ws_end(s, 0)) {
        Option::None => false,
        Option::Some(j) => ws_end(s, j) == s.len(),
    }
}

/// A position result of the scanner, as the spec grammar states it.
pub open spec fn as_opt_int(r: Option<usize>) -> Option<int> {
    match r {
        Option::Some(j) => Option::Some(j as int),
        Option::None => Option::None,
    }
}

fn ws_end_x(s: &Vec<char>, i: usize) -> (r: usize)
    requires
        i <= s@.len(),
    ensures
        i <= r <= s@.len(),
        r as int == ws_end(s@, i as int),
{
    let mut j: usize = i;
    while j < s.len() && (s[j] == ' ' || s[j] == '\t' || s[j] == '\n' || s[j] == '\r')
        invariant
            i <= j <= s@.len(),
            ws_end(s@, i as int) == ws_end(s@, j as int),
        decreases s@.len() - j,
    {
        j += 1;
    }
    j
}

fn digits_end_x(s: &Vec<char>, i: usize) -> (r: usize)
    requires
        i <= s@.len(),
    ensures
        i <= r <= s@.len(),
        r as int == digits_end(s@, i as int),
{
    let mut j: usize = i;
    while j < s.len() && digit_x(s[j])
        invariant
            i <= j <= s@.len(),
            digits_end(s@, i as int) == digits_end(s@, j as int),
        decreases s@.len() - j,
    {
        j += 1;
    }
    j
}

fn digit_x(c: char) -> (r: bool)
    ensures
        r == is_digit(c),
{
    let u = c as u32;
    48 <= u && u <= 57
}

fn hex_x(c: char) -> (r: bool)
    ensures
        r == is_hex(c),
{
    let u = c as u32;
    (48 <= u && u <= 57) || (97 <= u && u <= 102) || (65 <= u && u <= 70)
}

fn short_escape_x(c: char) -> (r: bool)
    ensures
        r == is_short_escape(c),
{
    c == '"' || c == '\\' || c == '/' || c == 'b' || c == 'f' || c == 'n' || c == 'r'
        || c == 't'
}

fn string_rest_x(s: &Vec<char>, i: usize) -> (r: Option<usize>)
    requires
        i <= s@.len(),
    ensures
        as_opt_int(r) == string_rest(s@, i as int),
        r matches Some(j) ==> i < j && j <= s@.len(),
{
    let mut j: usize = i;
    loop
        invariant
            i <= j <= s@.len(),
            string_rest(s@, i as int) == string_rest(s@, j as int),
        decreases s@.len() - j,
    {
        if j >= s.len() {
            return None;
        }
        let c = s[j];
        if c == '"' {
            return Some(j + 1);
        }
        if c == '\\' {
            if s.len() - j >= 2 && short_escape_x(s[j + 1]) {
                j += 2;
            } else if s.len() - j >= 6 && s[j + 1] == 'u' && hex_x(s[j + 2]) && hex_x(s[j + 3])
                && hex_x(s[j + 4]) && hex_x(s[j + 5]) {
                j += 6;
            } else {
                return None;
            }
        } else if (c as u32) < 32 {
            return None;
        } else {
            j += 1;
        }
    }
}

fn string_end_x(s: &Vec<char>, i: usize) -> (r: Option<usize>)
    requires
        i <= s@.len(),
    ensures
        as_opt_int(r) == string_end(s@, i as int),
        r matches Some(j) ==> i < j && j <= s@.len(),
{
    if i < s.len() && s[i] == '"' {
        string_rest_x(s, i + 1)
    } else {
        None
    }
}

fn exp_end_x(s: &Vec<char>, i: usize) -> (r: Option<usize>)
    requires
        i <= s@.len(),
    ensures
        as_opt_int(r) == exp_end(s@, i as int),
        r matches Some(j) ==> i <= j && j <= s@.len(),
{
    if i < s.len() && (s[i] == 'e' || s[i] == 'E') {
        let j: usize = if s.len() - i >= 2 && (s[i + 1] == '+' || s[i + 1] == '-') {
            i + 2
        } else {
            i + 1
        };
        if j < s.len() && digit_x(s[j]) {
            Some(digits_end_x(s, j + 1))
        } else {
            None
        }
    } else {
        Some(i)
    }
}

fn frac_end_x(s: &Vec<char>, i: usize) -> (r: Option<usize>)
    requires
        i <= s@.len(),
    ensures
        as_opt_int(r) == frac_end(s@, i as int),
        r matches Some(j) ==> i <= j && j <= s@.len(),
{
    if i < s.len() && s[i] == '.' {
        if s.len() - i >= 2 && digit_x(s[i + 1]) {
            exp_end_x(s, digits_end_x(s, i + 1))
        } else {
            None
        }
    } else {
        exp_end_x(s, i)
    }
}

fn int_end_x(s: &Vec<char>, i: usize) -> (r: Option<usize>)
    requires
        i <= s@.len(),
    ensures
        as_opt_int(r) == int_end(s@, i as int),
        r matches Some(j) ==> i < j && j <= s@.len(),
{
    if i < s.len() && s[i] == '0' {
        frac_end_x(s, i + 1)
    } else if i < s.len() && digit_x(s[i]) {
        frac_end_x(s, digits_end_x(s, i + 1))
    } else {
        None
    }
}

fn number_end_x(s: &Vec<char>, i: usize) -> (r: Option<usize>)
    requires
        i <= s@.len(),
    ensures
        as_opt_int(r) == number_end(s@, i as int),
        r matches Some(j) ==> i < j && j <= s@.len(),
{
    if i < s.len() && s[i] == '-' {
        int_end_x(s, i + 1)
    } else {
        int_end_x(s, i)
    }
}

fn value_end_x(s: &Vec<char>, i: usize) -> (r: Option<usize>)
    requires
        i <= s@.len(),
    ensures
        as_opt_int(r) == value_end(s@, i as int),
        r matches Some(j) ==> i < j && j <= s@.len(),
    decreases s@.len() - i, 0int,
{
    if i >= s.len() {
        return None;
    }
    let c = s[i];
    if c == '"' {
        string_end_x(s, i)
    } else if c == '{' {
        let j = ws_end_x(s, i + 1);
        if j < s.len() && s[j] == '}' {
            Some(j + 1)
        } else {
            members_end_x(s, j)
        }
    } else if c == '[' {
        let j = ws_end_x(s, i + 1);
        if j < s.len() && s[j] == ']' {
            Some(j + 1)
        } else {
            elements_end_x(s, j)
        }
    } else if c == 't' {
        if s.len() - i >= 4 && s[i + 1] == 'r' && s[i + 2] == 'u' && s[i + 3] == 'e' {
            Some(i + 4)
        } else {
            None
        }
    } else if c == 'f' {
        if s.len() - i >= 5 && s[i + 1] == 'a' && s[i + 2] == 'l' && s[i + 3] == 's'
            && s[i + 4] == 'e' {
            Some(i + 5)
        } else {
            None
        }
    } else if c == 'n' {
        if s.len() - i >= 4 && s[i + 1] == 'u' && s[i + 2] == 'l' && s[i + 3] == 'l' {
            Some(i + 4)
        } else {
            None
        }
    } else if c == '-' || digit_x(c) {
        number_end_x(s, i)
    } else {
        None
    }
}

fn members_end_x(s: &Vec<char>, i: usize) -> (r: Option<usize>)
    requires
        i <= s@.len(),
    ensures
        as_opt_int(r) == members_end(s@, i as int),
        r matches Some(j) ==> i < j && j <= s@.len(),
    decreases s@.len() - i, 1int,
{
    let k = match string_end_x(s, i) {
        Some(k) => k,
        None => {
            return None;
        },
    };
    let c = ws_end_x(s, k);
    if c < s.len() && s[c] == ':' {
        let v = ws_end_x(s, c + 1);
        match value_end_x(s, v) {
            None => None,
            Some(e) => {
                let w = ws_end_x(s, e);
                if w < s.len() && s[w] == '}' {
                    Some(w + 1)
                } else if w < s.len() && s[w] == ',' {
                    let n = ws_end_x(s, w + 1);
                    members_end_x(s, n)
                } else {
                    None
                }
            },
        }
    } else {
        None
    }
}

fn elements_end_x(s: &Vec<char>, i: usize) -> (r: Option<usize>)
    requires
        i <= s@.len(),
    ensures
        as_opt_int(r) == elements_end(s@, i as int),
        r matches Some(j) ==> i < j && j <= s@.len(),
    decreases s@.len() - i, 1int,
{
    match value_end_x(s, i) {
        None => None,
        Some(e) => {
            let w = ws_end_x(s, e);
            if w < s.len() && s[w] == ']' {
                Some(w + 1)
            } else if w < s.len() && s[w] == ',' {
                let n = ws_end_x(s, w + 1);
                elements_end_x(s, n)
            } else {
                None
            }
        },
    }
}

/// Whether the characters form one JSON value, with leading and
/// trailing whitespace allowed: the check that an upstream reply body
/// must pass before it is relayed.
pub fn is_json_text(s: &Vec<char>) -> (r: bool)
    ensures
        r == spec_is_json_text(s@),
{
    let b = ws_end_x(s, 0);
    match value_end_x(s, b) {
        None => false,
        Some(j) => {
            let e = ws_end_x(s, j);
            e == s.len()
        },
    }
}

} // verus!
