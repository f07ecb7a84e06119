use vstd::prelude::*;
use crate::bridge::expr_ok;
use crate::errors::EvalErrorModel;
use crate::eval::{spec_eval, spec_step_eval, spec_select_step, lookup_or_null};
use crate::parse::{spec_parse, spec_parse_from, spec_trimmed, spec_segment, spec_resolve,
    resolve_from, spec_build_body, spec_select_key, spec_index_shape, spec_expression,
    spec_string_lit, lemma_ident_end};
use crate::step::{StepModel, EntryModel};
use crate::value::{ValueModel, obj_lookup, lemma_obj_lookup_absent};
use crate::errors::QueryError;

verus! {

// ---------------------------------------------------------------------------
// The library's stated laws, each proved once and for all.
// ---------------------------------------------------------------------------

/// Repeated field indexing of a tree: read each key in turn, failing
/// on a non-object state and degrading a missing key to null.
pub open spec fn select_chain(state: ValueModel, keys: Seq<Seq<char>>) -> Result<
    ValueModel,
    EvalErrorModel,
>
    decreases keys,
{
    if keys.len() == 0 {
        Ok(state)
    } else {
        match state {
            ValueModel::Obj(es) => select_chain(
                lookup_or_null(state, keys[0]),
                keys.drop_first(),
            ),
            _ => Err(EvalErrorModel::NotAnObject),
        }
    }
}

/// A plan made of key selections alone evaluates exactly as repeated
/// field indexing of the input tree, key by key in the same order.
pub proof fn lemma_select_plan_is_field_indexing(
    state: ValueModel,
    plan: Seq<StepModel>,
    keys: Seq<Seq<char>>,
)
    requires
        plan.len() == keys.len(),
        forall|i: int| 0 <= i < plan.len() ==> plan[i] == StepModel::SelectKey(keys[i]),
    ensures
        spec_eval(state, plan) == select_chain(state, keys),
    decreases plan,
{
    if plan.len() > 0 {
        assert(plan[0] == StepModel::SelectKey(keys[0]));
        match state {
            ValueModel::Obj(es) => {
                let v = lookup_or_null(state, keys[0]);
                assert(spec_step_eval(state, plan[0]) == Ok::<ValueModel, EvalErrorModel>(v));
                assert(plan.drop_first().len() == keys.drop_first().len());
                assert(forall|i: int| 0 <= i < plan.drop_first().len() ==> plan.drop_first()[i]
                    == StepModel::SelectKey(keys.drop_first()[i]));
                lemma_select_plan_is_field_indexing(v, plan.drop_first(), keys.drop_first());
            },
            _ => {
                assert(spec_step_eval(state, plan[0]) == Err::<ValueModel, EvalErrorModel>(
                    EvalErrorModel::NotAnObject,
                ));
            },
        }
    }
}

/// What a resolved boundary means: the prefix of that length is
/// valid, every shorter prefix is not, and the boundary lies inside
/// the text.
pub proof fn lemma_resolve_bounds(t: Seq<char>, from: int, k: int)
    requires
        0 <= from,
        resolve_from(t, from) == Some(k),
    ensures
        from <= k < t.len(),
        expr_ok(t.subrange(0, k + 1)),
        forall|j: int| from <= j < k ==> !expr_ok(#[trigger] t.subrange(0, j + 1)),
    decreases t.len() - from,
{
    if from < t.len() && !expr_ok(t.subrange(0, from + 1)) {
        lemma_resolve_bounds(t, from + 1, k);
    }
}

/// First-fit, not longest-fit: where the one-character prefix is
/// already a valid expression, the resolver settles on it, whatever
/// longer prefixes would also be valid.
pub proof fn lemma_first_fit_shortest(t: Seq<char>)
    requires
        t.len() >= 1,
        expr_ok(t.subrange(0, 1)),
    ensures
        spec_resolve(t) == Some(0int),
{
}

/// Missing-key selection is non-fatal: a key held by no entry of an
/// object selects null rather than an error.
pub proof fn lemma_missing_key_selects_null(es: Seq<(Seq<char>, ValueModel)>, key: Seq<char>)
    requires
        forall|i: int| 0 <= i < es.len() ==> (#[trigger] es[i]).0 != key,
    ensures
        spec_select_step(ValueModel::Obj(es), key) == Ok::<ValueModel, EvalErrorModel>(
            ValueModel::Null,
        ),
{
    lemma_obj_lookup_absent(es, key);
}

/// An accepted object body always ends past where it began.
proof fn lemma_build_body_progress(
    s: Seq<char>,
    p: int,
    in_map: bool,
    stack: Seq<StepModel>,
    acc: Seq<EntryModel>,
)
    requires
        0 <= p,
        spec_build_body(s, p, in_map, stack, acc) is Ok,
    ensures
        p < spec_build_body(s, p, in_map, stack, acc)->Ok_0.1 <= s.len(),
    decreases s.len() - p,
{
    if p < s.len() {
        if s[p] == '}' {
        } else if s[p] == ',' {
            match crate::parse::spec_flush(stack, in_map, acc, p) {
                Err(_) => {},
                Ok(acc2) => {
                    lemma_build_body_progress(s, p + 1, false, Seq::empty(), acc2);
                },
            }
        } else if s[p] == ':' {
            lemma_build_body_progress(s, p + 1, true, stack, acc);
        } else if s[p] == '"' {
            match spec_string_lit(s, p) {
                Err(_) => {},
                Ok((part, q)) => {
                    if p < q <= s.len() {
                        lemma_build_body_progress(s, q, in_map, stack.push(part), acc);
                    }
                },
            }
        } else if s[p] == '(' {
            match spec_expression(s, p) {
                Err(_) => {},
                Ok((part, q)) => {
                    if p < q <= s.len() {
                        lemma_build_body_progress(s, q, in_map, stack.push(part), acc);
                    }
                },
            }
        } else if crate::parse::is_ident_start(s[p]) {
            match spec_select_key(s, p) {
                Err(_) => {},
                Ok((part, q)) => {
                    if p < q <= s.len() {
                        lemma_build_body_progress(s, q, in_map, stack.push(part), acc);
                    }
                },
            }
        }
    }
}

/// Parser progress: every accepted segment consumes at least one
/// character, so the position after it strictly exceeds the position
/// before; a parse can therefore never stand still.
pub proof fn lemma_segment_progress(s: Seq<char>, i: int)
    requires
        0 <= i < s.len(),
        spec_segment(s, i) is Ok,
    ensures
        i < spec_segment(s, i)->Ok_0.1 <= s.len(),
{
    if s[i] == '.' {
    } else if s[i] == '{' {
        match crate::parse::spec_build_object(s, i) {
            Err(_) => {},
            Ok(_) => {
                lemma_build_body_progress(
                    s,
                    i + 1,
                    false,
                    Seq::<StepModel>::empty(),
                    Seq::<EntryModel>::empty(),
                );
            },
        }
    } else if s[i] == '(' {
        match spec_resolve(s.subrange(i, s.len() as int)) {
            None => {},
            Some(k) => {
                lemma_resolve_bounds(s.subrange(i, s.len() as int), 0, k);
            },
        }
    } else if s[i] == '[' {
        match spec_index_shape(s, i) {
            None => {},
            Some((neg, d0, d1, end)) => {
                let j1 = crate::json::ws_to(s, i + 1);
                if j1 < s.len() && s[j1] == '-' {
                    crate::json::lemma_digits_end(s, crate::json::ws_to(s, j1 + 1));
                } else {
                    crate::json::lemma_digits_end(s, j1);
                }
            },
        }
    } else if crate::parse::is_ident_start(s[i]) {
        lemma_ident_end(s, i);
    }
}

/// A query of separator dots alone parses to the empty plan.
proof fn lemma_dots_parse_from(s: Seq<char>, i: int)
    requires
        0 <= i <= s.len(),
        forall|j: int| 0 <= j < s.len() ==> s[j] == '.',
    ensures
        spec_parse_from(s, i) == Ok::<Seq<StepModel>, QueryError>(Seq::<StepModel>::empty()),
    decreases s.len() - i,
{
    if i < s.len() {
        assert(s[i] == '.');
        lemma_dots_parse_from(s, i + 1);
    }
}

/// A query of separator dots alone is a no-op: it parses to the empty
/// plan, and the empty plan returns its input unchanged.
pub proof fn lemma_dots_query_noop(s: Seq<char>, state: ValueModel)
    requires
        forall|j: int| 0 <= j < s.len() ==> s[j] == '.',
    ensures
        spec_parse(s) == Ok::<Seq<StepModel>, QueryError>(Seq::<StepModel>::empty()),
        spec_eval(state, Seq::<StepModel>::empty()) == Ok::<ValueModel, EvalErrorModel>(state),
{
    let t = spec_trimmed(s);
    if s.len() == 0 {
        assert(t =~= Seq::<char>::empty());
        lemma_dots_parse_from(t, 0);
    } else {
        assert(!crate::json::is_json_ws(s[0]));
        assert(crate::json::skip_ws(s, 0) == 0);
        assert(!crate::json::is_json_ws(s[s.len() - 1]));
        assert(crate::parse::ws_rev(s, s.len() as int) == s.len());
        assert(t =~= s);
        lemma_dots_parse_from(t, 0);
    }
}


} // verus!
