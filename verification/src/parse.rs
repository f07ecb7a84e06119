use vstd::prelude::*;
use crate::bridge::expr_ok;
use crate::errors::QueryError;
use crate::json::{is_json_ws, is_digit, ws_to, digits_end, lemma_digits_end};
use crate::step::{Step, Entry, StepModel, EntryModel};

verus! {

broadcast use vstd::std_specs::vec::group_vec_axioms;

// ---------------------------------------------------------------------------
// The grammar of a query, read off functionally.  Each function takes
// the trimmed query text and a position, and yields what it recognized
// together with the first position after it, or the error the text
// earns.
// ---------------------------------------------------------------------------

pub open spec fn is_ident_start(c: char) -> bool {
    ('a' <= c && c <= 'z') || ('A' <= c && c <= 'Z') || c == '_'
}

pub open spec fn is_ident_char(c: char) -> bool {
    is_ident_start(c) || is_digit(c)
}

/// The first position at or after `i` that does not hold an
/// identifier character.
pub open spec fn ident_end(s: Seq<char>, i: int) -> int
    decreases s.len() - i,
{
    if 0 <= i < s.len() && is_ident_char(s[i]) {
        ident_end(s, i + 1)
    } else {
        i
    }
}

pub proof fn lemma_ident_end(s: Seq<char>, i: int)
    requires
        0 <= i <= s.len(),
    ensures
        i <= ident_end(s, i) <= s.len(),
        ident_end(s, i) < s.len() ==> !is_ident_char(s[ident_end(s, i)]),
        forall|j: int| i <= j < ident_end(s, i) ==> is_ident_char(s[j]),
    decreases s.len() - i,
{
    if i < s.len() && is_ident_char(s[i]) {
        lemma_ident_end(s, i + 1);
    }
}

pub proof fn lemma_ident_end_is(s: Seq<char>, i: int, k: int)
    requires
        0 <= i <= k <= s.len(),
        forall|j: int| i <= j < k ==> is_ident_char(s[j]),
        k < s.len() ==> !is_ident_char(s[k]),
    ensures
        ident_end(s, i) == k,
    decreases k - i,
{
    if i < k {
        assert(is_ident_char(s[i]));
        lemma_ident_end_is(s, i + 1, k);
    }
}

/// A key selection: letters, digits and underscores, starting with a
/// character that is not a digit.
pub open spec fn spec_select_key(s: Seq<char>, i: int) -> Result<(StepModel, int), QueryError> {
    if !(0 <= i < s.len()) || is_digit(s[i]) {
        Err(QueryError::Syntax { at: i as usize })
    } else {
        Ok((StepModel::SelectKey(s.subrange(i, ident_end(s, i))), ident_end(s, i)))
    }
}

/// The numeric value of a digit run.
pub open spec fn digits_val(s: Seq<char>, from: int, to: int) -> int
    decreases to - from,
{
    if from >= to {
        0
    } else {
        digits_val(s, from, to - 1) * 10 + (s[to - 1] as int - '0' as int)
    }
}

/// The position holds a digit.
pub open spec fn digit_at(s: Seq<char>, j: int) -> bool {
    0 <= j < s.len() && is_digit(s[j])
}

pub proof fn lemma_digits_val_nonneg(s: Seq<char>, from: int, to: int)
    requires
        forall|j: int| from <= j < to ==> #[trigger] digit_at(s, j),
    ensures
        digits_val(s, from, to) >= 0,
    decreases to - from,
{
    if from < to {
        lemma_digits_val_nonneg(s, from, to - 1);
        assert(digit_at(s, to - 1));
    }
}

/// A longer digit run never has a smaller value.
pub proof fn lemma_digits_val_grows(s: Seq<char>, from: int, k: int, to: int)
    requires
        from <= k <= to,
        forall|j: int| from <= j < to ==> #[trigger] digit_at(s, j),
    ensures
        digits_val(s, from, to) >= digits_val(s, from, k),
    decreases to - k,
{
    if k < to {
        lemma_digits_val_grows(s, from, k, to - 1);
        lemma_digits_val_nonneg(s, from, to - 1);
        assert(digit_at(s, to - 1));
        assert(digits_val(s, from, to - 1) * 10 >= digits_val(s, from, to - 1));
    }
}

/// The shape of a bracketed index: bracket, whitespace, an optional
/// sign, whitespace, digits, whitespace, closing bracket.  Yields the
/// sign, the digit run and the position after the bracket.
pub open spec fn spec_index_shape(s: Seq<char>, i: int) -> Option<(bool, int, int, int)> {
    if !(0 <= i < s.len() && s[i] == '[') {
        None
    } else {
        let j1 = ws_to(s, i + 1);
        let neg = j1 < s.len() && s[j1] == '-';
        let j2 = if neg {
            ws_to(s, j1 + 1)
        } else {
            j1
        };
        let d = digits_end(s, j2);
        if d == j2 {
            None
        } else {
            let j3 = ws_to(s, d);
            if j3 < s.len() && s[j3] == ']' {
                Some((neg, j2, d, j3 + 1))
            } else {
                None
            }
        }
    }
}

/// An index segment.  The digits must fit a machine integer; an empty
/// sign group means positive, a present one negative.
pub open spec fn spec_index(s: Seq<char>, i: int) -> Result<(StepModel, int), QueryError> {
    match spec_index_shape(s, i) {
        None => Err(QueryError::Syntax { at: i as usize }),
        Some((neg, d0, d1, end)) => {
            let v = digits_val(s, d0, d1);
            if v > isize::MAX as int {
                Err(QueryError::IndexRange { at: i as usize })
            } else {
                Ok((StepModel::Index(if neg { -v } else { v }), end))
            }
        },
    }
}

/// The first-fit boundary: the least `k` such that the first `k + 1`
/// characters of `t` form one valid embedded expression.
pub open spec fn resolve_from(t: Seq<char>, k: int) -> Option<int>
    decreases t.len() - k,
{
    if !(0 <= k < t.len()) {
        None
    } else if expr_ok(t.subrange(0, k + 1)) {
        Some(k)
    } else {
        resolve_from(t, k + 1)
    }
}

pub open spec fn spec_resolve(t: Seq<char>) -> Option<int> {
    resolve_from(t, 0)
}

pub proof fn lemma_resolve_found(t: Seq<char>, from: int, k: int)
    requires
        0 <= from <= k < t.len(),
        expr_ok(t.subrange(0, k + 1)),
        forall|j: int| from <= j < k ==> !expr_ok(#[trigger] t.subrange(0, j + 1)),
    ensures
        resolve_from(t, from) == Some(k),
    decreases k - from,
{
    if from < k {
        lemma_resolve_found(t, from + 1, k);
    }
}

pub proof fn lemma_resolve_none(t: Seq<char>, from: int)
    requires
        0 <= from,
        forall|j: int| from <= j < t.len() ==> !expr_ok(#[trigger] t.subrange(0, j + 1)),
    ensures
        resolve_from(t, from) is None,
    decreases t.len() - from,
{
    if from < t.len() {
        lemma_resolve_none(t, from + 1);
    }
}

/// An embedded expression, entered at its opening parenthesis, which
/// belongs to the snippet.  The snippet is the shortest prefix of the
/// remaining text that is one valid expression.
pub open spec fn spec_expression(s: Seq<char>, i: int) -> Result<(StepModel, int), QueryError> {
    match spec_resolve(s.subrange(i, s.len() as int)) {
        None => Err(QueryError::Boundary { at: i as usize }),
        Some(k) => Ok((StepModel::Expression(s.subrange(i, i + k + 1)), i + k + 1)),
    }
}

/// A string literal part, entered at its opening quote.  The resolved
/// text, quotes included, is wrapped in parentheses and becomes an
/// expression step.
pub open spec fn spec_string_lit(s: Seq<char>, i: int) -> Result<(StepModel, int), QueryError> {
    match spec_resolve(s.subrange(i, s.len() as int)) {
        None => Err(QueryError::Boundary { at: i as usize }),
        Some(k) => Ok(
            (StepModel::Expression(seq!['('] + s.subrange(i, i + k + 1) + seq![')']), i + k + 1),
        ),
    }
}

/// Close one pending entry of an object body: in select mode the one
/// pending part must be a key selection, copied verbatim; in map mode
/// the two pending parts become a computed pair.
pub open spec fn spec_flush(
    stack: Seq<StepModel>,
    in_map: bool,
    acc: Seq<EntryModel>,
    at: int,
) -> Result<Seq<EntryModel>, QueryError> {
    if !in_map {
        if stack.len() == 1 && stack[0] is SelectKey {
            Ok(acc.push(EntryModel::Select(stack[0])))
        } else {
            Err(QueryError::Entry { at: at as usize })
        }
    } else {
        if stack.len() == 2 {
            Ok(acc.push(EntryModel::Mapped(stack[0], stack[1])))
        } else {
            Err(QueryError::Entry { at: at as usize })
        }
    }
}

/// The body of an object-building segment, entered after the brace.
/// A two-state machine: parts pile up on a pending stack, a colon
/// switches the entry to map mode, a comma or the closing brace
/// flushes the stack into one entry.
pub open spec fn spec_build_body(
    s: Seq<char>,
    p: int,
    in_map: bool,
    stack: Seq<StepModel>,
    acc: Seq<EntryModel>,
) -> Result<(Seq<EntryModel>, int), QueryError>
    decreases s.len() - p,
{
    if !(0 <= p < s.len()) {
        Err(QueryError::Unclosed { at: p as usize })
    } else if s[p] == '}' {
        match spec_flush(stack, in_map, acc, p) {
            Err(e) => Err(e),
            Ok(acc2) => Ok((acc2, p + 1)),
        }
    } else if s[p] == ',' {
        match spec_flush(stack, in_map, acc, p) {
            Err(e) => Err(e),
            Ok(acc2) => spec_build_body(s, p + 1, false, Seq::empty(), acc2),
        }
    } else if s[p] == ':' {
        spec_build_body(s, p + 1, true, stack, acc)
    } else if s[p] == '"' {
        match spec_string_lit(s, p) {
            Err(e) => Err(e),
            Ok((part, q)) => {
                if !(p < q <= s.len()) {
                    Err(QueryError::Invariant { at: p as usize })
                } else {
                    spec_build_body(s, q, in_map, stack.push(part), acc)
                }
            },
        }
    } else if s[p] == '(' {
        match spec_expression(s, p) {
            Err(e) => Err(e),
            Ok((part, q)) => {
                if !(p < q <= s.len()) {
                    Err(QueryError::Invariant { at: p as usize })
                } else {
                    spec_build_body(s, q, in_map, stack.push(part), acc)
                }
            },
        }
    } else if is_ident_start(s[p]) {
        match spec_select_key(s, p) {
            Err(e) => Err(e),
            Ok((part, q)) => {
                if !(p < q <= s.len()) {
                    Err(QueryError::Invariant { at: p as usize })
                } else {
                    spec_build_body(s, q, in_map, stack.push(part), acc)
                }
            },
        }
    } else {
        Err(QueryError::Syntax { at: p as usize })
    }
}

/// An object-building segment, entered at its opening brace.
pub open spec fn spec_build_object(s: Seq<char>, i: int) -> Result<(StepModel, int), QueryError> {
    match spec_build_body(s, i + 1, false, Seq::empty(), Seq::empty()) {
        Err(e) => Err(e),
        Ok((entries, end)) => Ok((StepModel::BuildObject(entries), end)),
    }
}

/// One segment of the plan: a separator dot, which produces no step,
/// or one of the four step forms.
pub open spec fn spec_segment(s: Seq<char>, i: int) -> Result<
    (Option<StepModel>, int),
    QueryError,
> {
    if !(0 <= i < s.len()) {
        Err(QueryError::Syntax { at: i as usize })
    } else if s[i] == '.' {
        Ok((None, i + 1))
    } else if s[i] == '{' {
        match spec_build_object(s, i) {
            Err(e) => Err(e),
            Ok((st, j)) => Ok((Some(st), j)),
        }
    } else if s[i] == '(' {
        match spec_expression(s, i) {
            Err(e) => Err(e),
            Ok((st, j)) => Ok((Some(st), j)),
        }
    } else if s[i] == '[' {
        match spec_index(s, i) {
            Err(e) => Err(e),
            Ok((st, j)) => Ok((Some(st), j)),
        }
    } else if is_ident_start(s[i]) {
        match spec_select_key(s, i) {
            Err(e) => Err(e),
            Ok((st, j)) => Ok((Some(st), j)),
        }
    } else {
        Err(QueryError::Syntax { at: i as usize })
    }
}

/// The whole plan from position `i` on.  A segment that consumed
/// nothing would be a defect of the parser itself; it surfaces as the
/// distinct invariant-violation error rather than looping.
pub open spec fn spec_parse_from(s: Seq<char>, i: int) -> Result<Seq<StepModel>, QueryError>
    decreases s.len() - i,
{
    if !(0 <= i < s.len()) {
        Ok(Seq::empty())
    } else {
        match spec_segment(s, i) {
            Err(e) => Err(e),
            Ok((st, j)) => {
                if !(i < j <= s.len()) {
                    Err(QueryError::Invariant { at: i as usize })
                } else {
                    match spec_parse_from(s, j) {
                        Err(e) => Err(e),
                        Ok(rest) => match st {
                            None => Ok(rest),
                            Some(m) => Ok(seq![m] + rest),
                        },
                    }
                }
            },
        }
    }
}

/// The position just after the last non-whitespace character.
pub open spec fn ws_rev(s: Seq<char>, e: int) -> int
    decreases e,
{
    if 0 < e <= s.len() && is_json_ws(s[e - 1]) {
        ws_rev(s, e - 1)
    } else {
        e
    }
}

pub proof fn lemma_ws_rev_is(s: Seq<char>, e: int, k: int)
    requires
        0 <= k <= e <= s.len(),
        forall|j: int| k <= j < e ==> is_json_ws(s[j]),
        k > 0 ==> !is_json_ws(s[k - 1]),
    ensures
        ws_rev(s, e) == k,
    decreases e - k,
{
    if k < e {
        assert(is_json_ws(s[e - 1]));
        lemma_ws_rev_is(s, e - 1, k);
    }
}

/// The query text with leading and trailing whitespace removed.
pub open spec fn spec_trimmed(s: Seq<char>) -> Seq<char> {
    let a = ws_to(s, 0);
    let b = ws_rev(s, s.len() as int);
    if a <= b {
        s.subrange(a, b)
    } else {
        Seq::empty()
    }
}

/// The plan a query text earns: its trimmed text parsed from the
/// start.
pub open spec fn spec_parse(s: Seq<char>) -> Result<Seq<StepModel>, QueryError> {
    spec_parse_from(spec_trimmed(s), 0)
}


// ---------------------------------------------------------------------------
// The executable scanner, proved equal to the functions above.
// ---------------------------------------------------------------------------

pub open spec fn combine(
    pre: Seq<StepModel>,
    r: Result<Seq<StepModel>, QueryError>,
) -> Result<Seq<StepModel>, QueryError> {
    match r {
        Ok(rest) => Ok(pre + rest),
        Err(e) => Err(e),
    }
}

proof fn lemma_combine_assoc(a: Seq<StepModel>, b: Seq<StepModel>, r: Result<
    Seq<StepModel>,
    QueryError,
>)
    ensures
        combine(a, combine(b, r)) == combine(a + b, r),
{
    match r {
        Ok(rest) => {
            assert(a + (b + rest) =~= (a + b) + rest);
        },
        Err(_) => {},
    }
}

fn is_ident_start_char(c: char) -> (r: bool)
    ensures
        r == is_ident_start(c),
{
    ('a' <= c && c <= 'z') || ('A' <= c && c <= 'Z') || c == '_'
}

fn is_ident_char_ex(c: char) -> (r: bool)
    ensures
        r == is_ident_char(c),
{
    is_ident_start_char(c) || crate::json::is_digit_char(c)
}

#[verifier::loop_isolation(false)]
fn ex_ident_end(chars: &Vec<char>, start: usize) -> (r: usize)
    requires
        start <= chars.len(),
    ensures
        r as int == ident_end(chars@, start as int),
        start <= r <= chars.len(),
{
    let mut i = start;
    while i < chars.len() && is_ident_char_ex(chars[i])
        invariant
            start <= i <= chars.len(),
            forall|j: int| start <= j < i ==> is_ident_char(chars@[j]),
        decreases chars.len() - i,
    {
        i += 1;
    }
    proof {
        lemma_ident_end_is(chars@, start as int, i as int);
    }
    i
}

/// Copy the characters `[from, to)` into a fresh string.
#[verifier::loop_isolation(false)]
fn chars_between(chars: &Vec<char>, from: usize, to: usize) -> (r: String)
    requires
        from <= to <= chars.len(),
    ensures
        r@ == chars@.subrange(from as int, to as int),
{
    let mut out = String::new();
    let mut k = from;
    while k < to
        invariant
            from <= k <= to,
            out@ == chars@.subrange(from as int, k as int),
        decreases to - k,
    {
        let ghost pre = out@;
        crate::text::push_char(&mut out, chars[k]);
        proof {
            assert(pre.push(chars@[k as int]) =~= chars@.subrange(from as int, k + 1));
        }
        k += 1;
    }
    out
}

/// Scan one key selection.  A purely numeric start is rejected.
fn expect_select_key(chars: &Vec<char>, index: usize) -> (r: Result<(Step, usize), QueryError>)
    requires
        index <= chars.len(),
    ensures
        r matches Ok(p) ==> (spec_select_key(chars@, index as int) == Ok::<(StepModel, int), QueryError>((p.0@, p.1 as int))
            && index <= p.1 <= chars.len()),
        r matches Ok(p) ==> (is_ident_start(chars@[index as int]) ==> index < p.1),
        r matches Err(e) ==> spec_select_key(chars@, index as int) == Err::<(StepModel, int), QueryError>(e),
{
    if index >= chars.len() || crate::json::is_digit_char(chars[index]) {
        return Err(QueryError::Syntax { at: index });
    }
    let e = ex_ident_end(chars, index);
    proof {
        lemma_ident_end(chars@, index as int);
    }
    let key = chars_between(chars, index, e);
    Ok((Step::SelectKey { key }, e))
}

/// The numeric value of one digit character.
fn digit_of(c: char) -> (r: isize)
    requires
        is_digit(c),
    ensures
        r as int == c as int - '0' as int,
        0 <= r <= 9,
{
    match c {
        '0' => 0,
        '1' => 1,
        '2' => 2,
        '3' => 3,
        '4' => 4,
        '5' => 5,
        '6' => 6,
        '7' => 7,
        '8' => 8,
        _ => 9,
    }
}

/// Scan one bracketed index segment.
#[verifier::loop_isolation(false)]
fn expect_index(chars: &Vec<char>, index: usize) -> (r: Result<(Step, usize), QueryError>)
    requires
        index <= chars.len(),
    ensures
        r matches Ok(p) ==> (spec_index(chars@, index as int) == Ok::<(StepModel, int), QueryError>((p.0@, p.1 as int))
            && index < p.1 <= chars.len()),
        r matches Err(e) ==> spec_index(chars@, index as int) == Err::<(StepModel, int), QueryError>(e),
{
    if index >= chars.len() || chars[index] != '[' {
        return Err(QueryError::Syntax { at: index });
    }
    let j1 = crate::json::ex_skip_ws(chars, index + 1);
    let neg = j1 < chars.len() && chars[j1] == '-';
    let j2 = if neg {
        crate::json::ex_skip_ws(chars, j1 + 1)
    } else {
        j1
    };
    let d = crate::json::ex_digits_end(chars, j2);
    if d == j2 {
        return Err(QueryError::Syntax { at: index });
    }
    let j3 = crate::json::ex_skip_ws(chars, d);
    if j3 >= chars.len() {
        return Err(QueryError::Syntax { at: index });
    }
    if chars[j3] != ']' {
        return Err(QueryError::Syntax { at: index });
    }
    proof {
        lemma_digits_end(chars@, j2 as int);
        assert(forall|j: int| j2 <= j < d ==> #[trigger] digit_at(chars@, j));
    }
    let mut acc: isize = 0;
    let mut k = j2;
    while k < d
        invariant
            j2 <= k <= d,
            acc as int == digits_val(chars@, j2 as int, k as int),
            0 <= acc,
        decreases d - k,
    {
        proof {
            assert(digit_at(chars@, k as int));
        }
        let digit = digit_of(chars[k]);
        proof {
            assert(isize::MAX as int == 10 * (isize::MAX as int / 10) + isize::MAX as int % 10);
        }
        if acc > isize::MAX / 10 || (acc == isize::MAX / 10 && digit > isize::MAX % 10) {
            proof {
                lemma_digits_val_nonneg(chars@, j2 as int, k as int);
                assert(digits_val(chars@, j2 as int, k + 1) > isize::MAX as int);
                lemma_digits_val_grows(chars@, j2 as int, k + 1, d as int);
            }
            return Err(QueryError::IndexRange { at: index });
        }
        acc = acc * 10 + digit;
        k += 1;
    }
    let off: isize = if neg {
        -acc
    } else {
        acc
    };
    Ok((Step::Index { offset: off }, j3 + 1))
}

/// Find the shortest prefix of the text that is one complete embedded
/// expression, probing prefixes in order of length.  Deliberately
/// first-fit: a short prefix that already parses wins even where a
/// longer one would too.
pub fn resolve_boundary(text: &str) -> (r: Option<usize>)
    ensures
        r matches Some(k) ==> (spec_resolve(text@) == Some(k as int) && k < text@.len()),
        r is None ==> spec_resolve(text@) is None,
{
    let chars = crate::text::str_chars(text);
    let r = resolve_suffix(&chars, 0);
    proof {
        assert(chars@.subrange(0, chars@.len() as int) =~= text@);
    }
    r
}

/// The boundary of the embedded expression that starts at `from`.
#[verifier::loop_isolation(false)]
fn resolve_suffix(chars: &Vec<char>, from: usize) -> (r: Option<usize>)
    requires
        from <= chars.len(),
    ensures
        r matches Some(k) ==> (spec_resolve(chars@.subrange(from as int, chars@.len() as int))
            == Some(k as int) && from + k < chars.len()),
        r is None ==> spec_resolve(chars@.subrange(from as int, chars@.len() as int)) is None,
{
    let ghost t = chars@.subrange(from as int, chars@.len() as int);
    let mut probe = String::new();
    let mut k: usize = 0;
    while from + k < chars.len()
        invariant
            from + k <= chars.len(),
            probe@ == t.subrange(0, k as int),
            forall|j: int| 0 <= j < k ==> !expr_ok(#[trigger] t.subrange(0, j + 1)),
        decreases chars.len() - from - k,
    {
        let ghost pre = probe@;
        crate::text::push_char(&mut probe, chars[from + k]);
        proof {
            assert(pre.push(chars@[from + k]) =~= t.subrange(0, k + 1));
        }
        if crate::bridge::is_valid_expression(probe.as_str()) {
            proof {
                lemma_resolve_found(t, 0, k as int);
            }
            return Some(k);
        }
        k += 1;
    }
    proof {
        lemma_resolve_none(t, 0);
    }
    None
}

/// Scan one embedded-expression segment, entered at its parenthesis.
fn expect_expression(chars: &Vec<char>, index: usize) -> (r: Result<(Step, usize), QueryError>)
    requires
        index <= chars.len(),
    ensures
        r matches Ok(p) ==> (spec_expression(chars@, index as int) == Ok::<(StepModel, int), QueryError>((p.0@, p.1 as int))
            && index < p.1 <= chars.len()),
        r matches Err(e) ==> spec_expression(chars@, index as int) == Err::<(StepModel, int), QueryError>(e),
{
    match resolve_suffix(chars, index) {
        None => Err(QueryError::Boundary { at: index }),
        Some(k) => {
            let snippet = chars_between(chars, index, index + k + 1);
            Ok((Step::Expression { snippet }, index + k + 1))
        },
    }
}

/// Scan one string-literal part: the resolved literal, quotes
/// included, wrapped in parentheses as an expression snippet.
fn expect_string(chars: &Vec<char>, index: usize) -> (r: Result<(Step, usize), QueryError>)
    requires
        index <= chars.len(),
    ensures
        r matches Ok(p) ==> (spec_string_lit(chars@, index as int) == Ok::<(StepModel, int), QueryError>((p.0@, p.1 as int))
            && index < p.1 <= chars.len()),
        r matches Err(e) ==> spec_string_lit(chars@, index as int) == Err::<(StepModel, int), QueryError>(e),
{
    match resolve_suffix(chars, index) {
        None => Err(QueryError::Boundary { at: index }),
        Some(k) => {
            let mut snippet = String::new();
            crate::text::push_char(&mut snippet, '(');
            let mut p = index;
            while p < index + k + 1
                invariant
                    index <= p <= index + k + 1,
                    index + k + 1 <= chars.len(),
                    snippet@ == seq!['('] + chars@.subrange(index as int, p as int),
                decreases index + k + 1 - p,
            {
                let ghost pre = snippet@;
                crate::text::push_char(&mut snippet, chars[p]);
                proof {
                    assert(pre.push(chars@[p as int]) =~= seq!['('] + chars@.subrange(
                        index as int,
                        p + 1,
                    ));
                }
                p += 1;
            }
            crate::text::push_char(&mut snippet, ')');
            proof {
                assert(snippet@ =~= seq!['('] + chars@.subrange(index as int, index + k + 1)
                    + seq![')']);
            }
            Ok((Step::Expression { snippet }, index + k + 1))
        },
    }
}

/// Close one pending entry.
fn flush_entry(stack: Vec<Step>, in_map: bool, acc: Vec<Entry>, at: usize) -> (r: Result<
    Vec<Entry>,
    QueryError,
>)
    ensures
        r matches Ok(acc2) ==> spec_flush(
            crate::step::plan_model_of(stack@),
            in_map,
            crate::step::entry_list_model_of(acc@),
            at as int,
        ) == Ok::<Seq<EntryModel>, QueryError>(crate::step::entry_list_model_of(acc2@)),
        r matches Err(e) ==> spec_flush(
            crate::step::plan_model_of(stack@),
            in_map,
            crate::step::entry_list_model_of(acc@),
            at as int,
        ) == Err::<Seq<EntryModel>, QueryError>(e),
{
    proof {
        crate::step::lemma_plan_model_of(stack@);
        crate::step::lemma_entry_list_model_of(acc@);
    }
    let ghost stack_m = crate::step::plan_model_of(stack@);
    let ghost acc_m = crate::step::entry_list_model_of(acc@);
    let mut stack = stack;
    let mut acc = acc;
    if !in_map {
        if stack.len() != 1 {
            return Err(QueryError::Entry { at });
        }
        let part = stack.remove(0);
        if !(matches!(part, Step::SelectKey { .. })) {
            return Err(QueryError::Entry { at });
        }
        acc.push(Entry::Select { part });
        proof {
            crate::step::lemma_entry_list_model_of(acc@);
            assert(crate::step::entry_list_model_of(acc@) =~= acc_m.push(
                crate::step::EntryModel::Select(stack_m[0]),
            ));
        }
        Ok(acc)
    } else {
        if stack.len() != 2 {
            return Err(QueryError::Entry { at });
        }
        let key_part = stack.remove(0);
        let value_part = stack.remove(0);
        acc.push(Entry::Mapped { key_part, value_part });
        proof {
            crate::step::lemma_entry_list_model_of(acc@);
            assert(crate::step::entry_list_model_of(acc@) =~= acc_m.push(
                crate::step::EntryModel::Mapped(stack_m[0], stack_m[1]),
            ));
        }
        Ok(acc)
    }
}

/// The body of an object-building segment: the two-state machine over
/// pending parts.
fn build_body(
    chars: &Vec<char>,
    p: usize,
    in_map: bool,
    stack: Vec<Step>,
    acc: Vec<Entry>,
) -> (r: Result<(Vec<Entry>, usize), QueryError>)
    requires
        p <= chars.len(),
    ensures
        r matches Ok(q) ==> (spec_build_body(
            chars@,
            p as int,
            in_map,
            crate::step::plan_model_of(stack@),
            crate::step::entry_list_model_of(acc@),
        ) == Ok::<(Seq<EntryModel>, int), QueryError>((crate::step::entry_list_model_of(q.0@), q.1 as int)) && p < q.1 <= chars.len()),
        r matches Err(e) ==> spec_build_body(
            chars@,
            p as int,
            in_map,
            crate::step::plan_model_of(stack@),
            crate::step::entry_list_model_of(acc@),
        ) == Err::<(Seq<EntryModel>, int), QueryError>(e),
    decreases chars.len() - p,
{
    proof {
        crate::step::lemma_plan_model_of(stack@);
    }
    if p >= chars.len() {
        return Err(QueryError::Unclosed { at: p });
    }
    let c = chars[p];
    if c == '}' {
        match flush_entry(stack, in_map, acc, p) {
            Err(e) => Err(e),
            Ok(acc2) => Ok((acc2, p + 1)),
        }
    } else if c == ',' {
        match flush_entry(stack, in_map, acc, p) {
            Err(e) => Err(e),
            Ok(acc2) => {
                let fresh: Vec<Step> = Vec::new();
                let r = build_body(chars, p + 1, false, fresh, acc2);
                r
            },
        }
    } else if c == ':' {
        build_body(chars, p + 1, true, stack, acc)
    } else if c == '"' {
        match expect_string(chars, p) {
            Err(e) => Err(e),
            Ok((part, q)) => {
                let mut stack = stack;
                let ghost stack0 = stack@;
                stack.push(part);
                proof {
                    crate::step::lemma_plan_model_of(stack@);
                    crate::step::lemma_plan_model_of(stack0);
                    assert(crate::step::plan_model_of(stack@) =~= crate::step::plan_model_of(
                        stack0,
                    ).push(crate::step::step_model_of(stack@[stack@.len() - 1])));
                }
                build_body(chars, q, in_map, stack, acc)
            },
        }
    } else if c == '(' {
        match expect_expression(chars, p) {
            Err(e) => Err(e),
            Ok((part, q)) => {
                let mut stack = stack;
                let ghost stack0 = stack@;
                stack.push(part);
                proof {
                    crate::step::lemma_plan_model_of(stack@);
                    crate::step::lemma_plan_model_of(stack0);
                    assert(crate::step::plan_model_of(stack@) =~= crate::step::plan_model_of(
                        stack0,
                    ).push(crate::step::step_model_of(stack@[stack@.len() - 1])));
                }
                build_body(chars, q, in_map, stack, acc)
            },
        }
    } else if is_ident_start_char(c) {
        match expect_select_key(chars, p) {
            Err(e) => Err(e),
            Ok((part, q)) => {
                let mut stack = stack;
                let ghost stack0 = stack@;
                stack.push(part);
                proof {
                    crate::step::lemma_plan_model_of(stack@);
                    crate::step::lemma_plan_model_of(stack0);
                    assert(crate::step::plan_model_of(stack@) =~= crate::step::plan_model_of(
                        stack0,
                    ).push(crate::step::step_model_of(stack@[stack@.len() - 1])));
                }
                build_body(chars, q, in_map, stack, acc)
            },
        }
    } else {
        Err(QueryError::Syntax { at: p })
    }
}

/// Scan one object-building segment, entered at its opening brace.
fn expect_build_object(chars: &Vec<char>, index: usize) -> (r: Result<(Step, usize), QueryError>)
    requires
        index < chars.len(),
    ensures
        r matches Ok(p) ==> (spec_build_object(chars@, index as int) == Ok::<(StepModel, int), QueryError>((p.0@, p.1 as int))
            && index < p.1 <= chars.len()),
        r matches Err(e) ==> spec_build_object(chars@, index as int) == Err::<(StepModel, int), QueryError>(e),
{
    let stack: Vec<Step> = Vec::new();
    let acc: Vec<Entry> = Vec::new();
    proof {
        assert(crate::step::plan_model_of(stack@) =~= Seq::<StepModel>::empty());
        assert(crate::step::entry_list_model_of(acc@) =~= Seq::<EntryModel>::empty());
    }
    match build_body(chars, index + 1, false, stack, acc) {
        Err(e) => Err(e),
        Ok((entries, end)) => Ok((Step::BuildObject { entries }, end)),
    }
}

/// Compile a query string into its ordered plan of steps.  The text
/// is trimmed first; a dot is a pure separator and produces no step.
#[verifier::loop_isolation(false)]
pub fn parse_queries(input: &str) -> (r: Result<Vec<Step>, QueryError>)
    ensures
        r matches Ok(steps) ==> spec_parse(input@) == Ok::<Seq<StepModel>, QueryError>(crate::step::plan_model_of(steps@)),
        r matches Err(e) ==> spec_parse(input@) == Err::<Seq<StepModel>, QueryError>(e),
{
    let all = crate::text::str_chars(input);
    let a = crate::json::ex_skip_ws(&all, 0);
    let mut b = all.len();
    while b > 0 && crate::json::is_ws_char(all[b - 1])
        invariant
            0 <= b <= all.len(),
            forall|j: int| b <= j < all.len() ==> is_json_ws(all@[j]),
        decreases b,
    {
        b -= 1;
    }
    proof {
        lemma_ws_rev_is(all@, all@.len() as int, b as int);
    }
    let trimmed = if a <= b {
        chars_between(&all, a, b)
    } else {
        String::new()
    };
    let t = crate::text::str_chars(trimmed.as_str());
    let ghost tm = spec_trimmed(input@);
    proof {
        assert(t@ == tm);
    }

    let mut steps: Vec<Step> = Vec::new();
    let mut index: usize = 0;
    proof {
        assert(crate::step::plan_model_of(steps@) =~= Seq::<StepModel>::empty());
    }
    while index < t.len()
        invariant
            index <= t.len(),
            t@ == tm,
            spec_parse(input@) == combine(
                crate::step::plan_model_of(steps@),
                spec_parse_from(tm, index as int),
            ),
        decreases t.len() - index,
    {
        let ghost steps0 = steps@;
        let c = t[index];
        let seg: (Option<Step>, usize) = if c == '.' {
            (None, index + 1)
        } else if c == '{' {
            match expect_build_object(&t, index) {
                Err(e) => {
                    return Err(e);
                },
                Ok((st, j)) => (Some(st), j),
            }
        } else if c == '(' {
            match expect_expression(&t, index) {
                Err(e) => {
                    return Err(e);
                },
                Ok((st, j)) => (Some(st), j),
            }
        } else if c == '[' {
            match expect_index(&t, index) {
                Err(e) => {
                    return Err(e);
                },
                Ok((st, j)) => (Some(st), j),
            }
        } else if is_ident_start_char(c) {
            match expect_select_key(&t, index) {
                Err(e) => {
                    return Err(e);
                },
                Ok((st, j)) => (Some(st), j),
            }
        } else {
            return Err(QueryError::Syntax { at: index });
        };
        let (st, j) = seg;
        if j <= index {
            // An accepted segment that consumed nothing reports the
            // parser's own invariant violation rather than looping.
            return Err(QueryError::Invariant { at: index });
        }
        match st {
            None => {
                proof {
                    assert(spec_parse_from(tm, index as int) == spec_parse_from(tm, j as int));
                }
            },
            Some(step) => {
                steps.push(step);
                proof {
                    crate::step::lemma_plan_model_of(steps@);
                    crate::step::lemma_plan_model_of(steps0);
                    assert(crate::step::plan_model_of(steps@) =~= crate::step::plan_model_of(
                        steps0,
                    ) + seq![crate::step::step_model_of(steps@[steps@.len() - 1])]);
                    lemma_combine_assoc(
                        crate::step::plan_model_of(steps0),
                        seq![crate::step::step_model_of(steps@[steps@.len() - 1])],
                        spec_parse_from(tm, j as int),
                    );
                }
            },
        }
        index = j;
    }
    proof {
        assert(crate::step::plan_model_of(steps@) + Seq::<StepModel>::empty()
            =~= crate::step::plan_model_of(steps@));
    }
    Ok(steps)
}

} // verus!
