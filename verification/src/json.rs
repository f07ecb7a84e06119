use vstd::prelude::*;
use vstd::string::StringExecFns;
use crate::value::{Value, ValueModel, model_of, models_of, entry_models_of, lemma_models_of, lemma_entry_models_of};
use crate::text::{str_chars, push_char, char_from_u32};

verus! {

broadcast use vstd::std_specs::vec::group_vec_axioms, vstd::utf8::char_u32_cast;

// ---------------------------------------------------------------------------
// Lexical ground: whitespace, digits, hexadecimal digits.
// ---------------------------------------------------------------------------

pub open spec fn is_json_ws(c: char) -> bool {
    c == ' ' || c == '\t' || c == '\n' || c == '\r'
}

pub open spec fn is_digit(c: char) -> bool {
    '0' <= c && c <= '9'
}

pub open spec fn is_hex_digit(c: char) -> bool {
    is_digit(c) || ('a' <= c && c <= 'f') || ('A' <= c && c <= 'F')
}

pub open spec fn hex_val(c: char) -> int {
    if is_digit(c) {
        c as int - '0' as int
    } else if 'a' <= c && c <= 'f' {
        c as int - 'a' as int + 10
    } else {
        c as int - 'A' as int + 10
    }
}

/// The code point written by four hexadecimal digits at `i`.
pub open spec fn hex4(s: Seq<char>, i: int) -> int {
    hex_val(s[i]) * 0x1000 + hex_val(s[i + 1]) * 0x100 + hex_val(s[i + 2]) * 0x10 + hex_val(
        s[i + 3],
    )
}

pub open spec fn four_hex_at(s: Seq<char>, i: int) -> bool {
    i + 4 <= s.len() && is_hex_digit(s[i]) && is_hex_digit(s[i + 1]) && is_hex_digit(s[i + 2])
        && is_hex_digit(s[i + 3])
}

/// The first position at or after `i` that does not hold whitespace.
pub open spec fn skip_ws(s: Seq<char>, i: int) -> int
    decreases s.len() - i,
{
    if 0 <= i < s.len() && is_json_ws(s[i]) {
        skip_ws(s, i + 1)
    } else {
        i
    }
}

/// `skip_ws`, clamped into `[i, s.len()]`; equal to it wherever `i`
/// is in range, and convenient for termination measures.
pub open spec fn ws_to(s: Seq<char>, i: int) -> int {
    let j = skip_ws(s, i);
    if j < i {
        i
    } else if j > s.len() {
        s.len() as int
    } else {
        j
    }
}

/// The first position at or after `i` that does not hold a digit.
pub open spec fn digits_end(s: Seq<char>, i: int) -> int
    decreases s.len() - i,
{
    if 0 <= i < s.len() && is_digit(s[i]) {
        digits_end(s, i + 1)
    } else {
        i
    }
}

pub proof fn lemma_digits_end(s: Seq<char>, i: int)
    requires
        0 <= i <= s.len(),
    ensures
        i <= digits_end(s, i) <= s.len(),
        digits_end(s, i) < s.len() ==> !is_digit(s[digits_end(s, i)]),
        forall|j: int| i <= j < digits_end(s, i) ==> is_digit(s[j]),
    decreases s.len() - i,
{
    if i < s.len() && is_digit(s[i]) {
        lemma_digits_end(s, i + 1);
    }
}

/// A position that looks like the end of the digit run starting at `i`
/// is the end of that run.
pub proof fn lemma_digits_end_is(s: Seq<char>, i: int, k: int)
    requires
        0 <= i <= k <= s.len(),
        forall|j: int| i <= j < k ==> is_digit(s[j]),
        k < s.len() ==> !is_digit(s[k]),
    ensures
        digits_end(s, i) == k,
    decreases k - i,
{
    if i < k {
        assert(is_digit(s[i]));
        lemma_digits_end_is(s, i + 1, k);
    }
}

pub proof fn lemma_skip_ws_is(s: Seq<char>, i: int, k: int)
    requires
        0 <= i <= k <= s.len(),
        forall|j: int| i <= j < k ==> is_json_ws(s[j]),
        k < s.len() ==> !is_json_ws(s[k]),
    ensures
        skip_ws(s, i) == k,
    decreases k - i,
{
    if i < k {
        assert(is_json_ws(s[i]));
        lemma_skip_ws_is(s, i + 1, k);
    }
}

// ---------------------------------------------------------------------------
// The grammar, read off functionally: each function consumes from
// position `i` and yields what it recognized together with the first
// position after it, or `None` where the text is not JSON.
// ---------------------------------------------------------------------------

/// One `\\u` escape whose backslash stands at `i`: the character it
/// writes and the position after it.  A high surrogate must be
/// followed by a second escape holding a low one.
pub open spec fn json_u_escape(s: Seq<char>, i: int) -> Option<(char, int)> {
    if !four_hex_at(s, i + 2) {
        None
    } else {
        let code = hex4(s, i + 2);
        if 0xD800 <= code < 0xDC00 {
            if s.len() < i + 12 || s[i + 6] != '\\' || s[i + 7] != 'u' || !four_hex_at(s, i + 8) {
                None
            } else {
                let low = hex4(s, i + 8);
                if 0xDC00 <= low < 0xE000 {
                    Some(((0x10000 + (code - 0xD800) * 0x400 + (low - 0xDC00)) as char, i + 12))
                } else {
                    None
                }
            }
        } else if 0xDC00 <= code < 0xE000 {
            None
        } else {
            Some((code as char, i + 6))
        }
    }
}

/// The body of a string literal, entered just after the opening quote.
/// Yields the unescaped characters and the position after the closing
/// quote.
pub open spec fn json_string_body(s: Seq<char>, i: int) -> Option<(Seq<char>, int)>
    decreases s.len() - i,
{
    if !(0 <= i < s.len()) {
        None
    } else if s[i] == '"' {
        Some((Seq::empty(), i + 1))
    } else if s[i] == '\\' {
        if i + 1 >= s.len() {
            None
        } else {
            let e = s[i + 1];
            if e == '"' || e == '\\' || e == '/' {
                prepend_str(seq![e], json_string_body(s, i + 2))
            } else if e == 'b' {
                prepend_str(seq![8u32 as char], json_string_body(s, i + 2))
            } else if e == 'f' {
                prepend_str(seq![12u32 as char], json_string_body(s, i + 2))
            } else if e == 'n' {
                prepend_str(seq!['\n'], json_string_body(s, i + 2))
            } else if e == 'r' {
                prepend_str(seq!['\r'], json_string_body(s, i + 2))
            } else if e == 't' {
                prepend_str(seq!['\t'], json_string_body(s, i + 2))
            } else if e == 'u' {
                match json_u_escape(s, i) {
                    None => None,
                    Some((u, n)) => prepend_str(seq![u], json_string_body(s, n)),
                }
            } else {
                None
            }
        }
    } else if (s[i] as u32) < 0x20 {
        None
    } else {
        prepend_str(seq![s[i]], json_string_body(s, i + 1))
    }
}

pub open spec fn prepend_str(p: Seq<char>, o: Option<(Seq<char>, int)>) -> Option<(Seq<char>, int)> {
    match o {
        None => None,
        Some((t, j)) => Some((p + t, j)),
    }
}

/// The end of the number token starting at `i`, which points at a `-`
/// sign or the first digit.
pub open spec fn json_number_end(s: Seq<char>, i: int) -> Option<int> {
    let j0 = if 0 <= i < s.len() && s[i] == '-' {
        i + 1
    } else {
        i
    };
    if !(0 <= j0 < s.len() && is_digit(s[j0])) {
        None
    } else {
        let j1 = if s[j0] == '0' {
            j0 + 1
        } else {
            digits_end(s, j0)
        };
        if j1 < s.len() && s[j0] == '0' && is_digit(s[j1]) {
            // A leading zero admits no further integer digits.
            None
        } else {
            let j2o = if j1 < s.len() && s[j1] == '.' {
                if j1 + 1 < s.len() && is_digit(s[j1 + 1]) {
                    Some(digits_end(s, j1 + 1))
                } else {
                    None
                }
            } else {
                Some(j1)
            };
            match j2o {
                None => None,
                Some(j2) => {
                    if j2 < s.len() && (s[j2] == 'e' || s[j2] == 'E') {
                        let j3 = if j2 + 1 < s.len() && (s[j2 + 1] == '+' || s[j2 + 1] == '-') {
                            j2 + 2
                        } else {
                            j2 + 1
                        };
                        if j3 < s.len() && is_digit(s[j3]) {
                            Some(digits_end(s, j3))
                        } else {
                            None
                        }
                    } else {
                        Some(j2)
                    }
                },
            }
        }
    }
}

/// One JSON value starting exactly at `i` (no leading whitespace).
pub open spec fn json_value(s: Seq<char>, i: int) -> Option<(ValueModel, int)>
    decreases s.len() - i, 0int,
{
    if !(0 <= i < s.len()) {
        None
    } else {
        let c = s[i];
        if c == 'n' {
            if i + 4 <= s.len() && s[i + 1] == 'u' && s[i + 2] == 'l' && s[i + 3] == 'l' {
                Some((ValueModel::Null, i + 4))
            } else {
                None
            }
        } else if c == 't' {
            if i + 4 <= s.len() && s[i + 1] == 'r' && s[i + 2] == 'u' && s[i + 3] == 'e' {
                Some((ValueModel::Bool(true), i + 4))
            } else {
                None
            }
        } else if c == 'f' {
            if i + 5 <= s.len() && s[i + 1] == 'a' && s[i + 2] == 'l' && s[i + 3] == 's' && s[i + 4]
                == 'e' {
                Some((ValueModel::Bool(false), i + 5))
            } else {
                None
            }
        } else if c == '"' {
            match json_string_body(s, i + 1) {
                None => None,
                Some((t, j)) => Some((ValueModel::Str(t), j)),
            }
        } else if c == '-' || is_digit(c) {
            match json_number_end(s, i) {
                None => None,
                Some(j) => Some((ValueModel::Num(s.subrange(i, j)), j)),
            }
        } else if c == '[' {
            match json_array_items(s, i + 1) {
                None => None,
                Some((items, j)) => Some((ValueModel::Arr(items), j)),
            }
        } else if c == '{' {
            match json_object_entries(s, i + 1) {
                None => None,
                Some((entries, j)) => Some((ValueModel::Obj(entries), j)),
            }
        } else {
            None
        }
    }
}

/// The items of an array, entered just after the opening bracket.
pub open spec fn json_array_items(s: Seq<char>, i: int) -> Option<(Seq<ValueModel>, int)>
    decreases s.len() - i, 1int,
{
    if !(0 <= i <= s.len()) {
        None
    } else {
        let j = ws_to(s, i);
        if j >= s.len() {
            None
        } else if s[j] == ']' {
            Some((Seq::empty(), j + 1))
        } else {
            match json_value(s, j) {
                None => None,
                Some((v, m)) => {
                    if m <= i || m > s.len() {
                        None
                    } else {
                        match json_array_rest(s, m) {
                            None => None,
                            Some((rest, end)) => Some((seq![v] + rest, end)),
                        }
                    }
                },
            }
        }
    }
}

/// After one array item: either the closing bracket, or a comma and
/// the items that follow.
pub open spec fn json_array_rest(s: Seq<char>, i: int) -> Option<(Seq<ValueModel>, int)>
    decreases s.len() - i, 2int,
{
    if !(0 <= i <= s.len()) {
        None
    } else {
        let j = ws_to(s, i);
        if j >= s.len() {
            None
        } else if s[j] == ']' {
            Some((Seq::empty(), j + 1))
        } else if s[j] == ',' {
            let k = ws_to(s, j + 1);
            match json_value(s, k) {
                None => None,
                Some((v, m)) => {
                    if m <= i || m > s.len() {
                        None
                    } else {
                        match json_array_rest(s, m) {
                            None => None,
                            Some((rest, end)) => Some((seq![v] + rest, end)),
                        }
                    }
                },
            }
        } else {
            None
        }
    }
}

/// One `"key": value` member starting at the opening quote at `j`.
pub open spec fn json_member(s: Seq<char>, j: int) -> Option<((Seq<char>, ValueModel), int)>
    decreases s.len() - j, 0int,
{
    if !(0 <= j < s.len() && s[j] == '"') {
        None
    } else {
        match json_string_body(s, j + 1) {
            None => None,
            Some((key, m)) => {
                if m <= j {
                    None
                } else {
                    let j2 = ws_to(s, m);
                    if j2 < s.len() && s[j2] == ':' {
                        let j3 = ws_to(s, j2 + 1);
                        match json_value(s, j3) {
                            None => None,
                            Some((v, end)) => Some(((key, v), end)),
                        }
                    } else {
                        None
                    }
                }
            },
        }
    }
}

/// The members of an object, entered just after the opening brace.
pub open spec fn json_object_entries(s: Seq<char>, i: int) -> Option<
    (Seq<(Seq<char>, ValueModel)>, int),
>
    decreases s.len() - i, 1int,
{
    if !(0 <= i <= s.len()) {
        None
    } else {
        let j = ws_to(s, i);
        if j >= s.len() {
            None
        } else if s[j] == '}' {
            Some((Seq::empty(), j + 1))
        } else {
            match json_member(s, j) {
                None => None,
                Some((kv, m)) => {
                    if m <= i || m > s.len() {
                        None
                    } else {
                        match json_object_rest(s, m) {
                            None => None,
                            Some((rest, end)) => Some((seq![kv] + rest, end)),
                        }
                    }
                },
            }
        }
    }
}

/// After one object member: either the closing brace, or a comma and
/// the members that follow.
pub open spec fn json_object_rest(s: Seq<char>, i: int) -> Option<
    (Seq<(Seq<char>, ValueModel)>, int),
>
    decreases s.len() - i, 2int,
{
    if !(0 <= i <= s.len()) {
        None
    } else {
        let j = ws_to(s, i);
        if j >= s.len() {
            None
        } else if s[j] == '}' {
            Some((Seq::empty(), j + 1))
        } else if s[j] == ',' {
            let k = ws_to(s, j + 1);
            match json_member(s, k) {
                None => None,
                Some((kv, m)) => {
                    if m <= i || m > s.len() {
                        None
                    } else {
                        match json_object_rest(s, m) {
                            None => None,
                            Some((rest, end)) => Some((seq![kv] + rest, end)),
                        }
                    }
                },
            }
        } else {
            None
        }
    }
}

/// A whole document: one value, surrounded by nothing but whitespace.
pub open spec fn json_parse(s: Seq<char>) -> Option<ValueModel> {
    match json_value(s, ws_to(s, 0)) {
        None => None,
        Some((v, j)) => {
            if ws_to(s, j) == s.len() {
                Some(v)
            } else {
                None
            }
        },
    }
}


// ---------------------------------------------------------------------------
// The executable scanner, proved equal to the functions above.
// ---------------------------------------------------------------------------

pub(crate) fn is_ws_char(c: char) -> (r: bool)
    ensures
        r == is_json_ws(c),
{
    c == ' ' || c == '\t' || c == '\n' || c == '\r'
}

pub(crate) fn is_digit_char(c: char) -> (r: bool)
    ensures
        r == is_digit(c),
{
    '0' <= c && c <= '9'
}

fn hex_digit_val(c: char) -> (r: Option<u32>)
    ensures
        r matches Some(v) ==> (is_hex_digit(c) && v as int == hex_val(c) && v < 16),
        r is None ==> !is_hex_digit(c),
{
    if '0' <= c && c <= '9' {
        Some(c as u32 - 48)
    } else if 'a' <= c && c <= 'f' {
        Some(c as u32 - 97 + 10)
    } else if 'A' <= c && c <= 'F' {
        Some(c as u32 - 65 + 10)
    } else {
        None
    }
}

#[verifier::loop_isolation(false)]
pub(crate) fn ex_skip_ws(chars: &Vec<char>, start: usize) -> (r: usize)
    requires
        start <= chars.len(),
    ensures
        r as int == skip_ws(chars@, start as int),
        r as int == ws_to(chars@, start as int),
        start <= r <= chars.len(),
{
    let mut i = start;
    while i < chars.len() && is_ws_char(chars[i])
        invariant
            start <= i <= chars.len(),
            forall|j: int| start <= j < i ==> is_json_ws(chars@[j]),
        decreases chars.len() - i,
    {
        i += 1;
    }
    proof {
        lemma_skip_ws_is(chars@, start as int, i as int);
    }
    i
}

#[verifier::loop_isolation(false)]
pub(crate) fn ex_digits_end(chars: &Vec<char>, start: usize) -> (r: usize)
    requires
        start <= chars.len(),
    ensures
        r as int == digits_end(chars@, start as int),
        start <= r <= chars.len(),
{
    let mut i = start;
    while i < chars.len() && is_digit_char(chars[i])
        invariant
            start <= i <= chars.len(),
            forall|j: int| start <= j < i ==> is_digit(chars@[j]),
        decreases chars.len() - i,
    {
        i += 1;
    }
    proof {
        lemma_digits_end_is(chars@, start as int, i as int);
    }
    i
}

proof fn lemma_prepend_assoc(a: Seq<char>, b: Seq<char>, o: Option<(Seq<char>, int)>)
    ensures
        prepend_str(a, prepend_str(b, o)) == prepend_str(a + b, o),
{
    match o {
        None => {},
        Some((t, j)) => {
            assert(a + (b + t) =~= (a + b) + t);
        },
    }
}

/// Read four hexadecimal digits at `start` as one code unit.
fn ex_hex4(chars: &Vec<char>, start: usize) -> (r: Option<u32>)
    ensures
        r matches Some(v) ==> four_hex_at(chars@, start as int),
        r matches Some(v) ==> v as int == hex4(chars@, start as int),
        r matches Some(v) ==> v < 0x10000,
        r is None ==> !four_hex_at(chars@, start as int),
{
    if start > chars.len() || chars.len() - start < 4 {
        return None;
    }
    let d0 = hex_digit_val(chars[start]);
    let d1 = hex_digit_val(chars[start + 1]);
    let d2 = hex_digit_val(chars[start + 2]);
    let d3 = hex_digit_val(chars[start + 3]);
    match (d0, d1, d2, d3) {
        (Some(v0), Some(v1), Some(v2), Some(v3)) => {
            Some(v0 * 0x1000 + v1 * 0x100 + v2 * 0x10 + v3)
        },
        _ => None,
    }
}
/// Decode one `\\u` escape whose backslash stands at `i`.
fn ex_u_escape(chars: &Vec<char>, i: usize) -> (r: Option<(char, usize)>)
    requires
        i + 1 < chars.len(),
    ensures
        r matches Some(p) ==> (json_u_escape(chars@, i as int) == Some((p.0, p.1 as int))
            && i < p.1 <= chars.len()),
        r is None ==> json_u_escape(chars@, i as int) is None,
{
    broadcast use vstd::utf8::char_u32_cast;

    let n = chars.len();
    proof {
        assert(n == chars@.len());
    }
    match ex_hex4(chars, i + 2) {
        None => None,
        Some(code) => {
            if 0xD800 <= code && code < 0xDC00 {
                if chars.len() - i < 12 || chars[i + 6] != '\\' || chars[i + 7] != 'u' {
                    return None;
                }
                match ex_hex4(chars, i + 8) {
                    None => None,
                    Some(low) => {
                        if 0xDC00 <= low && low < 0xE000 {
                            let cp = 0x10000 + (code - 0xD800) * 0x400 + (low - 0xDC00);
                            let cc = char_from_u32(cp).unwrap();
                            proof {
                                vstd::utf8::char_u32_cast(cc, cp);
                                assert(cp as int == 0x10000 + (code - 0xD800) * 0x400 + (low
                                    - 0xDC00));
                                assert((cp as int) as char == cc);
                            }
                            Some((cc, i + 12))
                        } else {
                            None
                        }
                    },
                }
            } else if 0xDC00 <= code && code < 0xE000 {
                None
            } else {
                let cc = char_from_u32(code).unwrap();
                proof {
                    vstd::utf8::char_u32_cast(cc, code);
                    assert((code as int) as char == cc);
                }
                Some((cc, i + 6))
            }
        },
    }
}

/// Scan the body of a string literal, entered just after the opening
/// quote, unescaping as it goes.
#[verifier::loop_isolation(false)]
#[verifier::rlimit(100)]
fn ex_string_body(chars: &Vec<char>, start: usize) -> (r: Option<(String, usize)>)
    requires
        start <= chars.len(),
    ensures
        r matches Some(p) ==> (json_string_body(chars@, start as int) == Some((p.0@, p.1 as int))
            && start < p.1 <= chars.len()),
        r is None ==> json_string_body(chars@, start as int) is None,
{
    let mut out = String::new();
    let mut i = start;
    while i < chars.len()
        invariant
            start <= i <= chars.len(),
            json_string_body(chars@, start as int) == prepend_str(
                out@,
                json_string_body(chars@, i as int),
            ),
        decreases chars.len() - i,
    {
        let c = chars[i];
        if c == '"' {
            proof {
                assert(out@ + Seq::<char>::empty() =~= out@);
            }
            return Some((out, i + 1));
        }
        if c == '\\' {
            if i + 1 >= chars.len() {
                return None;
            }
            let e = chars[i + 1];
            let ghost out0 = out@;
            if e == '"' || e == '\\' || e == '/' {
                push_char(&mut out, e);
                proof {
                    assert(out0 + seq![e] =~= out@);
                    lemma_prepend_assoc(out0, seq![e], json_string_body(chars@, i + 2));
                }
                i += 2;
            } else if e == 'b' {
                push_char(&mut out, '\u{0008}');
                proof {
                    assert('\u{0008}' as u32 == 8);
                    assert(out0 + seq![8u32 as char] =~= out@);
                    lemma_prepend_assoc(out0, seq![8u32 as char], json_string_body(chars@, i + 2));
                }
                i += 2;
            } else if e == 'f' {
                push_char(&mut out, '\u{000c}');
                proof {
                    assert('\u{000c}' as u32 == 12);
                    assert(out0 + seq![12u32 as char] =~= out@);
                    lemma_prepend_assoc(out0, seq![12u32 as char], json_string_body(chars@, i + 2));
                }
                i += 2;
            } else if e == 'n' {
                push_char(&mut out, '\n');
                proof {
                    assert(out0 + seq!['\n'] =~= out@);
                    lemma_prepend_assoc(out0, seq!['\n'], json_string_body(chars@, i + 2));
                }
                i += 2;
            } else if e == 'r' {
                push_char(&mut out, '\r');
                proof {
                    assert(out0 + seq!['\r'] =~= out@);
                    lemma_prepend_assoc(out0, seq!['\r'], json_string_body(chars@, i + 2));
                }
                i += 2;
            } else if e == 't' {
                push_char(&mut out, '\t');
                proof {
                    assert(out0 + seq!['\t'] =~= out@);
                    lemma_prepend_assoc(out0, seq!['\t'], json_string_body(chars@, i + 2));
                }
                i += 2;
            } else if e == 'u' {
                match ex_u_escape(chars, i) {
                    None => {
                        return None;
                    },
                    Some((u, n)) => {
                        push_char(&mut out, u);
                        proof {
                            assert(out0 + seq![u] =~= out@);
                            lemma_prepend_assoc(out0, seq![u], json_string_body(chars@, n as int));
                        }
                        i = n;
                    },
                }
            } else {
                return None;
            }
        } else {
            if (c as u32) < 0x20 {
                return None;
            }
            let ghost out0 = out@;
            push_char(&mut out, c);
            proof {
                assert(out0 + seq![c] =~= out@);
                lemma_prepend_assoc(out0, seq![c], json_string_body(chars@, i + 1));
            }
            i += 1;
        }
    }
    None
}


/// Find the end of a number token whose first character stands at `i`.
fn ex_number_end(chars: &Vec<char>, i: usize) -> (r: Option<usize>)
    requires
        i <= chars.len(),
    ensures
        r matches Some(j) ==> (json_number_end(chars@, i as int) == Some(j as int)
            && i < j <= chars.len()),
        r is None ==> json_number_end(chars@, i as int) is None,
{
    let n = chars.len();
    let j0 = if i < n && chars[i] == '-' {
        i + 1
    } else {
        i
    };
    if !(j0 < n && is_digit_char(chars[j0])) {
        return None;
    }
    let j1 = if chars[j0] == '0' {
        j0 + 1
    } else {
        let e = ex_digits_end(chars, j0);
        proof {
            lemma_digits_end(chars@, j0 as int);
        }
        e
    };
    proof {
        assert(j1 > j0);
    }
    if j1 < n && chars[j0] == '0' && is_digit_char(chars[j1]) {
        return None;
    }
    let j2 = if j1 < n && chars[j1] == '.' {
        if j1 + 1 < n && is_digit_char(chars[j1 + 1]) {
            let e = ex_digits_end(chars, j1 + 1);
            proof {
                lemma_digits_end(chars@, j1 + 1);
            }
            e
        } else {
            return None;
        }
    } else {
        j1
    };
    let j = if j2 < n && (chars[j2] == 'e' || chars[j2] == 'E') {
        let j3 = if j2 + 1 < n && (chars[j2 + 1] == '+' || chars[j2 + 1] == '-') {
            j2 + 2
        } else {
            j2 + 1
        };
        if j3 < n && is_digit_char(chars[j3]) {
            let e = ex_digits_end(chars, j3);
            proof {
                lemma_digits_end(chars@, j3 as int);
            }
            e
        } else {
            return None;
        }
    } else {
        j2
    };
    Some(j)
}

/// Parse one JSON value standing exactly at `i`.
fn ex_value(chars: &Vec<char>, i: usize) -> (r: Option<(Value, usize)>)
    requires
        i <= chars.len(),
    ensures
        r matches Some(p) ==> (json_value(chars@, i as int) == Some((p.0@, p.1 as int))
            && i < p.1 <= chars.len()),
        r is None ==> json_value(chars@, i as int) is None,
    decreases chars.len() - i, 0int,
{
    let n = chars.len();
    if i >= n {
        return None;
    }
    let c = chars[i];
    if c == 'n' {
        if n - i >= 4 && chars[i + 1] == 'u' && chars[i + 2] == 'l' && chars[i + 3] == 'l' {
            Some((Value::Null, i + 4))
        } else {
            None
        }
    } else if c == 't' {
        if n - i >= 4 && chars[i + 1] == 'r' && chars[i + 2] == 'u' && chars[i + 3] == 'e' {
            Some((Value::Bool { b: true }, i + 4))
        } else {
            None
        }
    } else if c == 'f' {
        if n - i >= 5 && chars[i + 1] == 'a' && chars[i + 2] == 'l' && chars[i + 3] == 's' && chars[
            i + 4] == 'e' {
            Some((Value::Bool { b: false }, i + 5))
        } else {
            None
        }
    } else if c == '"' {
        match ex_string_body(chars, i + 1) {
            None => None,
            Some((t, j)) => Some((Value::Str { s: t }, j)),
        }
    } else if c == '-' || is_digit_char(c) {
        match ex_number_end(chars, i) {
            None => None,
            Some(j) => {
                let mut repr = String::new();
                let mut k = i;
                while k < j
                    invariant
                        i <= k <= j,
                        j <= chars.len(),
                        repr@ == chars@.subrange(i as int, k as int),
                    decreases j - k,
                {
                    let ghost repr0 = repr@;
                    push_char(&mut repr, chars[k]);
                    proof {
                        assert(repr0.push(chars@[k as int]) =~= chars@.subrange(
                            i as int,
                            k + 1,
                        ));
                    }
                    k += 1;
                }
                Some((Value::Num { repr }, j))
            },
        }
    } else if c == '[' {
        match ex_array_items(chars, i + 1) {
            None => None,
            Some((items, j)) => Some((Value::Arr { items }, j)),
        }
    } else if c == '{' {
        match ex_object_entries(chars, i + 1) {
            None => None,
            Some((entries, j)) => Some((Value::Obj { entries }, j)),
        }
    } else {
        None
    }
}

/// Parse the items of an array, entered just after the bracket.
fn ex_array_items(chars: &Vec<char>, i: usize) -> (r: Option<(Vec<Value>, usize)>)
    requires
        i <= chars.len(),
    ensures
        r matches Some(p) ==> (json_array_items(chars@, i as int) == Some(
            (models_of(p.0@), p.1 as int),
        ) && i < p.1 <= chars.len()),
        r is None ==> json_array_items(chars@, i as int) is None,
    decreases chars.len() - i, 1int,
{
    let j = ex_skip_ws(chars, i);
    if j >= chars.len() {
        return None;
    }
    if chars[j] == ']' {
        let empty: Vec<Value> = Vec::new();
        return Some((empty, j + 1));
    }
    match ex_value(chars, j) {
        None => None,
        Some((v, m)) => {
            match ex_array_rest(chars, m) {
                None => None,
                Some((rest, end)) => {
                    let mut rest = rest;
                    let ghost rest0 = rest@;
                    rest.insert(0, v);
                    proof {
                        assert(rest@.drop_first() =~= rest0);
                        lemma_models_of(rest@);
                        lemma_models_of(rest0);
                        assert(models_of(rest@) =~= seq![model_of(v)] + models_of(rest0));
                    }
                    Some((rest, end))
                },
            }
        },
    }
}

/// After one array item: the closing bracket, or a comma and more.
fn ex_array_rest(chars: &Vec<char>, i: usize) -> (r: Option<(Vec<Value>, usize)>)
    requires
        i <= chars.len(),
    ensures
        r matches Some(p) ==> (json_array_rest(chars@, i as int) == Some(
            (models_of(p.0@), p.1 as int),
        ) && i < p.1 <= chars.len()),
        r is None ==> json_array_rest(chars@, i as int) is None,
    decreases chars.len() - i, 2int,
{
    let j = ex_skip_ws(chars, i);
    if j >= chars.len() {
        return None;
    }
    if chars[j] == ']' {
        let empty: Vec<Value> = Vec::new();
        return Some((empty, j + 1));
    }
    if chars[j] != ',' {
        return None;
    }
    let k = ex_skip_ws(chars, j + 1);
    match ex_value(chars, k) {
        None => None,
        Some((v, m)) => {
            match ex_array_rest(chars, m) {
                None => None,
                Some((rest, end)) => {
                    let mut rest = rest;
                    let ghost rest0 = rest@;
                    rest.insert(0, v);
                    proof {
                        assert(rest@.drop_first() =~= rest0);
                        lemma_models_of(rest@);
                        lemma_models_of(rest0);
                        assert(models_of(rest@) =~= seq![model_of(v)] + models_of(rest0));
                    }
                    Some((rest, end))
                },
            }
        },
    }
}

/// One `"key": value` member standing at the opening quote.
fn ex_member(chars: &Vec<char>, j: usize) -> (r: Option<(String, Value, usize)>)
    requires
        j <= chars.len(),
    ensures
        r matches Some(p) ==> (json_member(chars@, j as int) == Some(
            ((p.0@, model_of(p.1)), p.2 as int),
        ) && j < p.2 <= chars.len()),
        r is None ==> json_member(chars@, j as int) is None,
    decreases chars.len() - j, 0int,
{
    if j >= chars.len() || chars[j] != '"' {
        return None;
    }
    match ex_string_body(chars, j + 1) {
        None => None,
        Some((key, m)) => {
            let j2 = ex_skip_ws(chars, m);
            if j2 >= chars.len() {
                return None;
            }
            if chars[j2] != ':' {
                return None;
            }
            let j3 = ex_skip_ws(chars, j2 + 1);
            match ex_value(chars, j3) {
                None => None,
                Some((v, end)) => Some((key, v, end)),
            }
        },
    }
}

/// Parse the members of an object, entered just after the brace.
fn ex_object_entries(chars: &Vec<char>, i: usize) -> (r: Option<(Vec<(String, Value)>, usize)>)
    requires
        i <= chars.len(),
    ensures
        r matches Some(p) ==> (json_object_entries(chars@, i as int) == Some(
            (entry_models_of(p.0@), p.1 as int),
        ) && i < p.1 <= chars.len()),
        r is None ==> json_object_entries(chars@, i as int) is None,
    decreases chars.len() - i, 1int,
{
    let j = ex_skip_ws(chars, i);
    if j >= chars.len() {
        return None;
    }
    if chars[j] == '}' {
        let empty: Vec<(String, Value)> = Vec::new();
        return Some((empty, j + 1));
    }
    match ex_member(chars, j) {
        None => None,
        Some((key, v, m)) => {
            match ex_object_rest(chars, m) {
                None => None,
                Some((rest, end)) => {
                    let mut rest = rest;
                    let ghost rest0 = rest@;
                    rest.insert(0, (key, v));
                    proof {
                        assert(rest@.drop_first() =~= rest0);
                        lemma_entry_models_of(rest@);
                        lemma_entry_models_of(rest0);
                        assert(entry_models_of(rest@) =~= seq![(rest@[0].0@, model_of(rest@[0].1))]
                            + entry_models_of(rest0));
                    }
                    Some((rest, end))
                },
            }
        },
    }
}

/// After one object member: the closing brace, or a comma and more.
fn ex_object_rest(chars: &Vec<char>, i: usize) -> (r: Option<(Vec<(String, Value)>, usize)>)
    requires
        i <= chars.len(),
    ensures
        r matches Some(p) ==> (json_object_rest(chars@, i as int) == Some(
            (entry_models_of(p.0@), p.1 as int),
        ) && i < p.1 <= chars.len()),
        r is None ==> json_object_rest(chars@, i as int) is None,
    decreases chars.len() - i, 2int,
{
    let j = ex_skip_ws(chars, i);
    if j >= chars.len() {
        return None;
    }
    if chars[j] == '}' {
        let empty: Vec<(String, Value)> = Vec::new();
        return Some((empty, j + 1));
    }
    if chars[j] != ',' {
        return None;
    }
    let k = ex_skip_ws(chars, j + 1);
    match ex_member(chars, k) {
        None => None,
        Some((key, v, m)) => {
            match ex_object_rest(chars, m) {
                None => None,
                Some((rest, end)) => {
                    let mut rest = rest;
                    let ghost rest0 = rest@;
                    rest.insert(0, (key, v));
                    proof {
                        assert(rest@.drop_first() =~= rest0);
                        lemma_entry_models_of(rest@);
                        lemma_entry_models_of(rest0);
                        assert(entry_models_of(rest@) =~= seq![(rest@[0].0@, model_of(rest@[0].1))]
                            + entry_models_of(rest0));
                    }
                    Some((rest, end))
                },
            }
        },
    }
}

/// Read one JSON document: a single value with nothing but
/// whitespace around it.
pub fn parse_json(text: &str) -> (r: Option<Value>)
    ensures
        r matches Some(v) ==> (json_parse(text@) == Some(v@)),
        r is None ==> json_parse(text@) is None,
{
    let chars = str_chars(text);
    let start = ex_skip_ws(&chars, 0);
    match ex_value(&chars, start) {
        None => None,
        Some((v, j)) => {
            let end = ex_skip_ws(&chars, j);
            if end == chars.len() {
                Some(v)
            } else {
                None
            }
        },
    }
}

// ---------------------------------------------------------------------------
// Serialization: the compact text of a value, and a writer that is
// proved to produce exactly that text.
// ---------------------------------------------------------------------------

pub open spec fn hex_digit_char(d: int) -> char {
    if d < 10 {
        ('0' as int + d) as char
    } else {
        ('a' as int + d - 10) as char
    }
}

/// How one character of a string is written: quotes and backslashes
/// get a backslash, control characters a universal escape, everything
/// else stands as itself.
pub open spec fn esc_char(c: char) -> Seq<char> {
    if c == '"' {
        seq!['\\', '"']
    } else if c == '\\' {
        seq!['\\', '\\']
    } else if (c as u32) < 0x20 {
        seq!['\\', 'u', '0', '0', hex_digit_char(((c as u32) / 16) as int), hex_digit_char(
            ((c as u32) % 16) as int,
        )]
    } else {
        seq![c]
    }
}

pub open spec fn esc_all(s: Seq<char>) -> Seq<char>
    decreases s,
{
    if s.len() == 0 {
        Seq::empty()
    } else {
        esc_char(s[0]) + esc_all(s.drop_first())
    }
}

pub open spec fn ser_string(s: Seq<char>) -> Seq<char> {
    seq!['"'] + esc_all(s) + seq!['"']
}

/// The compact serialization of a value: no whitespace, entries and
/// items separated by single commas.
pub open spec fn ser_value(m: ValueModel) -> Seq<char>
    decreases m, 0int,
{
    match m {
        ValueModel::Null => seq!['n', 'u', 'l', 'l'],
        ValueModel::Bool(b) => if b {
            seq!['t', 'r', 'u', 'e']
        } else {
            seq!['f', 'a', 'l', 's', 'e']
        },
        ValueModel::Num(r) => r,
        ValueModel::Str(s) => ser_string(s),
        ValueModel::Arr(items) => seq!['['] + ser_items(items) + seq![']'],
        ValueModel::Obj(entries) => seq!['{'] + ser_entries(entries) + seq!['}'],
    }
}

pub open spec fn ser_items(items: Seq<ValueModel>) -> Seq<char>
    decreases items, 1int,
{
    if items.len() == 0 {
        Seq::empty()
    } else if items.len() == 1 {
        ser_value(items[0])
    } else {
        ser_value(items[0]) + seq![','] + ser_items(items.drop_first())
    }
}

pub open spec fn ser_entries(entries: Seq<(Seq<char>, ValueModel)>) -> Seq<char>
    decreases entries, 1int,
{
    if entries.len() == 0 {
        Seq::empty()
    } else if entries.len() == 1 {
        ser_string(entries[0].0) + seq![':'] + ser_value(entries[0].1)
    } else {
        ser_string(entries[0].0) + seq![':'] + ser_value(entries[0].1) + seq![','] + ser_entries(
            entries.drop_first(),
        )
    }
}

pub proof fn lemma_esc_all_concat(a: Seq<char>, b: Seq<char>)
    ensures
        esc_all(a + b) == esc_all(a) + esc_all(b),
    decreases a,
{
    if a.len() == 0 {
        assert(a + b =~= b);
        assert(esc_all(a) + esc_all(b) =~= esc_all(b));
    } else {
        assert((a + b).drop_first() =~= a.drop_first() + b);
        lemma_esc_all_concat(a.drop_first(), b);
        assert(esc_all(a) + esc_all(b) =~= esc_char(a[0]) + esc_all(a.drop_first()) + esc_all(b));
        assert(esc_char((a + b)[0]) + esc_all(a.drop_first() + b) =~= esc_all(a) + esc_all(b));
    }
}

fn hex_char_of(d: u32) -> (r: char)
    requires
        d < 16,
    ensures
        r == hex_digit_char(d as int),
{
    broadcast use vstd::utf8::char_u32_cast;

    if d < 10 {
        let c = (48 + d as u8) as char;
        proof {
            vstd::utf8::char_u32_cast(c, (48 + d) as u32);
        }
        c
    } else {
        let c = (97 + d as u8 - 10) as char;
        proof {
            vstd::utf8::char_u32_cast(c, (97 + d - 10) as u32);
        }
        c
    }
}

/// Write one string literal, quotes and escapes included.
#[verifier::loop_isolation(false)]
fn write_escaped(s: &str, out: &mut String)
    ensures
        final(out)@ == old(out)@ + ser_string(s@),
{
    let cs = str_chars(s);
    push_char(out, '"');
    let mut k: usize = 0;
    while k < cs.len()
        invariant
            k <= cs.len(),
            cs@ == s@,
            out@ == old(out)@ + seq!['"'] + esc_all(cs@.subrange(0, k as int)),
        decreases cs.len() - k,
    {
        let ghost pre = cs@.subrange(0, k as int);
        let c = cs[k];
        if c == '"' {
            push_char(out, '\\');
            push_char(out, '"');
        } else if c == '\\' {
            push_char(out, '\\');
            push_char(out, '\\');
        } else if (c as u32) < 0x20 {
            push_char(out, '\\');
            push_char(out, 'u');
            push_char(out, '0');
            push_char(out, '0');
            push_char(out, hex_char_of((c as u32) / 16));
            push_char(out, hex_char_of((c as u32) % 16));
        } else {
            push_char(out, c);
        }
        proof {
            assert(pre + seq![cs@[k as int]] =~= cs@.subrange(0, k + 1));
            lemma_esc_all_concat(pre, seq![cs@[k as int]]);
            assert(seq![cs@[k as int]].drop_first() =~= Seq::<char>::empty());
            assert(esc_all(Seq::<char>::empty()) =~= Seq::<char>::empty());
            assert(esc_all(seq![cs@[k as int]]) =~= esc_char(cs@[k as int]));
            assert(out@ =~= old(out)@ + seq!['"'] + esc_all(cs@.subrange(0, k + 1)));
        }
        k += 1;
    }
    push_char(out, '"');
    proof {
        assert(cs@.subrange(0, cs@.len() as int) =~= s@);
        assert(out@ =~= old(out)@ + ser_string(s@));
    }
}

/// Write one value, in the compact form `ser_value` describes.
fn write_value(v: &Value, out: &mut String)
    ensures
        final(out)@ == old(out)@ + ser_value(v@),
    decreases v, 0int,
{
    match v {
        Value::Null => {
            push_char(out, 'n');
            push_char(out, 'u');
            push_char(out, 'l');
            push_char(out, 'l');
            proof {
                assert(out@ =~= old(out)@ + seq!['n', 'u', 'l', 'l']);
            }
        },
        Value::Bool { b } => {
            if *b {
                push_char(out, 't');
                push_char(out, 'r');
                push_char(out, 'u');
                push_char(out, 'e');
                proof {
                    assert(out@ =~= old(out)@ + seq!['t', 'r', 'u', 'e']);
                }
            } else {
                push_char(out, 'f');
                push_char(out, 'a');
                push_char(out, 'l');
                push_char(out, 's');
                push_char(out, 'e');
                proof {
                    assert(out@ =~= old(out)@ + seq!['f', 'a', 'l', 's', 'e']);
                }
            }
        },
        Value::Num { repr } => {
            out.append(repr.as_str());
        },
        Value::Str { s } => {
            write_escaped(s.as_str(), out);
        },
        Value::Arr { items } => {
            push_char(out, '[');
            write_items(items, 0, out);
            push_char(out, ']');
            proof {
                lemma_models_of(items@);
                assert(models_of(items@).skip(0) =~= models_of(items@));
                assert(out@ =~= old(out)@ + ser_value(v@));
            }
        },
        Value::Obj { entries } => {
            push_char(out, '{');
            write_entries(entries, 0, out);
            push_char(out, '}');
            proof {
                lemma_entry_models_of(entries@);
                assert(entry_models_of(entries@).skip(0) =~= entry_models_of(entries@));
                assert(out@ =~= old(out)@ + ser_value(v@));
            }
        },
    }
}

/// Write the items of an array from position `from` on, commas
/// between them.
fn write_items(items: &Vec<Value>, from: usize, out: &mut String)
    requires
        from <= items.len(),
    ensures
        final(out)@ == old(out)@ + ser_items(models_of(items@).skip(from as int)),
    decreases items, 1int, items.len() - from,
{
    proof {
        lemma_models_of(items@);
    }
    let ghost tail = models_of(items@).skip(from as int);
    if from >= items.len() {
        proof {
            assert(out@ =~= old(out)@ + ser_items(tail));
        }
        return ;
    }
    proof {
        assert(decreases_to!(*items => items@[from as int]));
        assert(tail[0] == model_of(items@[from as int]));
        assert(tail.drop_first() =~= models_of(items@).skip(from + 1));
    }
    write_value(&items[from], out);
    if from + 1 < items.len() {
        push_char(out, ',');
        write_items(items, from + 1, out);
        proof {
            assert(out@ =~= old(out)@ + ser_items(tail));
        }
    } else {
        proof {
            assert(tail.len() == 1);
            assert(out@ =~= old(out)@ + ser_items(tail));
        }
    }
}

/// Write the members of an object from position `from` on.
fn write_entries(entries: &Vec<(String, Value)>, from: usize, out: &mut String)
    requires
        from <= entries.len(),
    ensures
        final(out)@ == old(out)@ + ser_entries(entry_models_of(entries@).skip(from as int)),
    decreases entries, 1int, entries.len() - from,
{
    proof {
        lemma_entry_models_of(entries@);
    }
    let ghost tail = entry_models_of(entries@).skip(from as int);
    if from >= entries.len() {
        proof {
            assert(out@ =~= old(out)@ + ser_entries(tail));
        }
        return ;
    }
    proof {
        assert(decreases_to!(*entries => entries@[from as int]));
        assert(decreases_to!(entries@[from as int] => entries@[from as int].1));
        assert(tail[0] == (entries@[from as int].0@, model_of(entries@[from as int].1)));
        assert(tail.drop_first() =~= entry_models_of(entries@).skip(from + 1));
    }
    write_escaped(entries[from].0.as_str(), out);
    push_char(out, ':');
    write_value(&entries[from].1, out);
    if from + 1 < entries.len() {
        push_char(out, ',');
        write_entries(entries, from + 1, out);
        proof {
            assert(out@ =~= old(out)@ + ser_entries(tail));
        }
    } else {
        proof {
            assert(tail.len() == 1);
            assert(out@ =~= old(out)@ + ser_entries(tail));
        }
    }
}

/// The compact JSON text of a value.
pub fn serialize_json(v: &Value) -> (r: String)
    ensures
        r@ == ser_value(v@),
{
    let mut out = String::new();
    write_value(v, &mut out);
    proof {
        assert(Seq::<char>::empty() + ser_value(v@) =~= ser_value(v@));
    }
    out
}

} // verus!
