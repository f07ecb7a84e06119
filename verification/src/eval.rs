use vstd::prelude::*;
use crate::bridge::bridge_eval;
use crate::errors::{EvalError, EvalErrorModel};
use crate::json::{parse_json, serialize_json};
use crate::step::{Step, Entry, StepModel, EntryModel, plan_model_of, lemma_plan_model_of,
    entry_list_model_of, lemma_entry_list_model_of};
use crate::value::{Value, ValueModel, model_of, models_of, entry_models_of, obj_lookup,
    obj_insert, lemma_models_of, lemma_entry_models_of, lemma_obj_lookup_found,
    lemma_obj_lookup_absent, lemma_obj_insert_found, lemma_obj_insert_absent};

verus! {

broadcast use vstd::std_specs::vec::group_vec_axioms;

// ---------------------------------------------------------------------------
// The meaning of each step, stated over the models.
// ---------------------------------------------------------------------------

/// Reading a key of the running state never fails: a missing key, or
/// a state that is no object at all, reads as null.
pub open spec fn lookup_or_null(m: ValueModel, key: Seq<char>) -> ValueModel {
    match m {
        ValueModel::Obj(es) => match obj_lookup(es, key) {
            Some(v) => v,
            None => ValueModel::Null,
        },
        _ => ValueModel::Null,
    }
}

/// A key-selection step demands an object state, then reads the key,
/// degrading a missing key to null.
pub open spec fn spec_select_step(m: ValueModel, key: Seq<char>) -> Result<
    ValueModel,
    EvalErrorModel,
> {
    if m is Obj {
        Ok(lookup_or_null(m, key))
    } else {
        Err(EvalErrorModel::NotAnObject)
    }
}

/// A negative offset counts from the end of the array.
pub open spec fn norm_index(off: int, len: int) -> int {
    if off < 0 {
        len + off
    } else {
        off
    }
}

/// An index step demands an array state; after normalization the
/// position must lie inside it, and unlike a missing key this does
/// not degrade to null.
pub open spec fn spec_index_step(m: ValueModel, off: int) -> Result<ValueModel, EvalErrorModel> {
    match m {
        ValueModel::Arr(items) => {
            let n = norm_index(off, items.len() as int);
            if 0 <= n < items.len() {
                Ok(items[n])
            } else {
                Err(EvalErrorModel::IndexOutOfRange)
            }
        },
        _ => Err(EvalErrorModel::NotAnArray),
    }
}

/// One entry of an object-building step.  A bare entry copies a key
/// verbatim.  A mapped entry reads its key part, which must name a
/// string in the state; a mapped value may be copied from a key, while
/// the expression-valued forms are deliberately unsupported.
pub open spec fn spec_entry_step(
    state: ValueModel,
    e: EntryModel,
    acc: Seq<(Seq<char>, ValueModel)>,
) -> Result<Seq<(Seq<char>, ValueModel)>, EvalErrorModel> {
    match e {
        EntryModel::Select(part) => match part {
            StepModel::SelectKey(k) => Ok(obj_insert(acc, k, lookup_or_null(state, k))),
            _ => Err(EvalErrorModel::BadEntry),
        },
        EntryModel::Mapped(kp, vp) => match kp {
            StepModel::SelectKey(k) => match lookup_or_null(state, k) {
                ValueModel::Str(ks) => match vp {
                    StepModel::SelectKey(vk) => Ok(obj_insert(acc, ks, lookup_or_null(state, vk))),
                    StepModel::Expression(_) => Err(EvalErrorModel::Unsupported),
                    _ => Err(EvalErrorModel::BadEntry),
                },
                _ => Err(EvalErrorModel::KeyNotString),
            },
            StepModel::Expression(_) => Err(EvalErrorModel::Unsupported),
            _ => Err(EvalErrorModel::BadEntry),
        },
    }
}

/// The entries of an object-building step, folded in declaration
/// order over a fresh object.
pub open spec fn spec_build_entries(
    state: ValueModel,
    entries: Seq<EntryModel>,
    acc: Seq<(Seq<char>, ValueModel)>,
) -> Result<Seq<(Seq<char>, ValueModel)>, EvalErrorModel>
    decreases entries,
{
    if entries.len() == 0 {
        Ok(acc)
    } else {
        match spec_entry_step(state, entries[0], acc) {
            Err(e) => Err(e),
            Ok(acc2) => spec_build_entries(state, entries.drop_first(), acc2),
        }
    }
}

/// A step is pure when its meaning does not go through the expression
/// bridge.
pub open spec fn pure_step(st: StepModel) -> bool {
    !(st is Expression)
}

pub open spec fn pure_plan(p: Seq<StepModel>) -> bool {
    forall|i: int| 0 <= i < p.len() ==> pure_step(#[trigger] p[i])
}

/// The meaning of one pure step.  The reserved operators are
/// unsupported; an expression step has no pure meaning.
pub open spec fn spec_step_eval(state: ValueModel, st: StepModel) -> Result<
    ValueModel,
    EvalErrorModel,
> {
    match st {
        StepModel::SelectKey(k) => spec_select_step(state, k),
        StepModel::Index(off) => spec_index_step(state, off),
        StepModel::BuildObject(entries) => match spec_build_entries(state, entries, Seq::empty()) {
            Err(e) => Err(e),
            Ok(es) => Ok(ValueModel::Obj(es)),
        },
        StepModel::Expression(_) => arbitrary(),
        StepModel::Fanout => Err(EvalErrorModel::Unsupported),
        StepModel::Join => Err(EvalErrorModel::Unsupported),
        StepModel::Select => Err(EvalErrorModel::Unsupported),
    }
}

/// The meaning of a pure plan: the steps applied strictly in order,
/// the first failure fatal.
pub open spec fn spec_eval(state: ValueModel, plan: Seq<StepModel>) -> Result<
    ValueModel,
    EvalErrorModel,
>
    recommends
        pure_plan(plan),
    decreases plan,
{
    if plan.len() == 0 {
        Ok(state)
    } else {
        match spec_step_eval(state, plan[0]) {
            Err(e) => Err(e),
            Ok(s2) => spec_eval(s2, plan.drop_first()),
        }
    }
}

// ---------------------------------------------------------------------------
// The executable evaluator.
// ---------------------------------------------------------------------------

/// Read `key` from an object's entries, front to back; a copy of the
/// stored value, or null where the key is absent.
#[verifier::loop_isolation(false)]
fn lookup_key(entries: &Vec<(String, Value)>, key: &String) -> (r: Value)
    ensures
        r@ == match obj_lookup(entry_models_of(entries@), key@) {
            Some(v) => v,
            None => ValueModel::Null,
        },
{
    proof {
        lemma_entry_models_of(entries@);
    }
    let mut i: usize = 0;
    while i < entries.len()
        invariant
            i <= entries.len(),
            forall|j: int| 0 <= j < i ==> entries@[j].0@ != key@,
        decreases entries.len() - i,
    {
        if entries[i].0 == *key {
            proof {
                lemma_obj_lookup_found(entry_models_of(entries@), key@, i as int);
            }
            return entries[i].1.duplicate();
        }
        i += 1;
    }
    proof {
        lemma_obj_lookup_absent(entry_models_of(entries@), key@);
    }
    Value::Null
}

/// Read `key` from the running state, degrading to null.
fn lookup_or_null_ex(state: &Value, key: &String) -> (r: Value)
    ensures
        r@ == lookup_or_null(state@, key@),
{
    match state {
        Value::Obj { entries } => lookup_key(entries, key),
        _ => Value::Null,
    }
}

/// Store `val` under `key`: replace the first entry with that key, or
/// append a fresh one.
#[verifier::loop_isolation(false)]
fn insert_entry(entries: &mut Vec<(String, Value)>, key: String, val: Value)
    ensures
        entry_models_of(final(entries)@) == obj_insert(
            entry_models_of(old(entries)@),
            key@,
            val@,
        ),
{
    proof {
        lemma_entry_models_of(entries@);
    }
    let ghost m0 = entry_models_of(entries@);
    let mut i: usize = 0;
    while i < entries.len()
        invariant
            i <= entries.len(),
            entries@ == old(entries)@,
            forall|j: int| 0 <= j < i ==> entries@[j].0@ != key@,
        decreases entries.len() - i,
    {
        if entries[i].0 == key {
            proof {
                lemma_obj_insert_found(m0, key@, val@, i as int);
            }
            let ghost before = entries@;
            entries.remove(i);
            entries.insert(i, (key, val));
            proof {
                assert(entries@ =~= before.update(i as int, (entries@[i as int].0, entries@[
                    i as int].1)));
                lemma_entry_models_of(entries@);
                assert(entry_models_of(entries@) =~= m0.update(i as int, (key@, val@)));
            }
            return ;
        }
        i += 1;
    }
    proof {
        lemma_obj_insert_absent(m0, key@, val@);
    }
    let ghost before = entries@;
    entries.push((key, val));
    proof {
        lemma_entry_models_of(entries@);
        assert(entry_models_of(entries@) =~= m0.push((key@, val@)));
    }
}

/// Apply one object-building entry to the object being built.
fn apply_entry(state: &Value, e: &Entry, acc: &mut Vec<(String, Value)>) -> (r: Result<
    (),
    EvalError,
>)
    ensures
        r is Ok ==> spec_entry_step(state@, e@, entry_models_of(old(acc)@)) == Ok::<
            Seq<(Seq<char>, ValueModel)>,
            EvalErrorModel,
        >(entry_models_of(final(acc)@)),
        r matches Err(er) ==> (spec_entry_step(state@, e@, entry_models_of(old(acc)@)) == Err::<
            Seq<(Seq<char>, ValueModel)>,
            EvalErrorModel,
        >(er@) && final(acc)@ == old(acc)@),
{
    match e {
        Entry::Select { part } => {
            match part {
                Step::SelectKey { key } => {
                    let v = lookup_or_null_ex(state, key);
                    insert_entry(acc, key.clone(), v);
                    Ok(())
                },
                _ => Err(EvalError::BadEntry),
            }
        },
        Entry::Mapped { key_part, value_part } => {
            match key_part {
                Step::SelectKey { key } => {
                    let kv = lookup_or_null_ex(state, key);
                    match kv {
                        Value::Str { s } => {
                            match value_part {
                                Step::SelectKey { key: vk } => {
                                    let v = lookup_or_null_ex(state, vk);
                                    insert_entry(acc, s, v);
                                    Ok(())
                                },
                                Step::Expression { .. } => Err(EvalError::Unsupported),
                                _ => Err(EvalError::BadEntry),
                            }
                        },
                        _ => Err(EvalError::KeyNotString),
                    }
                },
                Step::Expression { .. } => Err(EvalError::Unsupported),
                _ => Err(EvalError::BadEntry),
            }
        },
    }
}

/// Build a fresh object from the entries, in declaration order.
#[verifier::loop_isolation(false)]
fn apply_build(state: &Value, entries: &Vec<Entry>) -> (r: Result<Value, EvalError>)
    ensures
        r matches Ok(v) ==> spec_build_entries(state@, entry_list_model_of(entries@), Seq::empty())
            matches Ok(es) && v@ == ValueModel::Obj(es),
        r matches Err(e) ==> spec_build_entries(state@, entry_list_model_of(entries@), Seq::empty())
            == Err::<Seq<(Seq<char>, ValueModel)>, EvalErrorModel>(e@),
{
    proof {
        lemma_entry_list_model_of(entries@);
    }
    let ghost em = entry_list_model_of(entries@);
    let mut acc: Vec<(String, Value)> = Vec::new();
    let mut i: usize = 0;
    proof {
        assert(entry_models_of(acc@) =~= Seq::<(Seq<char>, ValueModel)>::empty());
        assert(em.skip(0) =~= em);
    }
    while i < entries.len()
        invariant
            i <= entries.len(),
            spec_build_entries(state@, em, Seq::empty()) == spec_build_entries(
                state@,
                em.skip(i as int),
                entry_models_of(acc@),
            ),
        decreases entries.len() - i,
    {
        let ghost tail = em.skip(i as int);
        proof {
            assert(tail[0] == em[i as int]);
            assert(tail.drop_first() =~= em.skip(i + 1));
        }
        match apply_entry(state, &entries[i], &mut acc) {
            Ok(()) => {},
            Err(e) => {
                return Err(e);
            },
        }
        i += 1;
    }
    proof {
        assert(em.skip(entries@.len() as int) =~= Seq::<EntryModel>::empty());
    }
    Ok(Value::Obj { entries: acc })
}

/// Run a parsed plan against an initial state, threading one current
/// value through the steps.  Expression steps hand the serialized
/// state and the snippet to the expression bridge and decode its
/// answer; every other step has the pure meaning `spec_eval` gives it,
/// so on plans without expression steps the result is pinned exactly.
#[verifier::loop_isolation(false)]
pub fn evaluate(initial: Value, plan: &Vec<Step>) -> (r: Result<Value, EvalError>)
    ensures
        pure_plan(plan_model_of(plan@)) ==> match r {
            Ok(v) => spec_eval(initial@, plan_model_of(plan@)) == Ok::<
                ValueModel,
                EvalErrorModel,
            >(v@),
            Err(e) => spec_eval(initial@, plan_model_of(plan@)) == Err::<
                ValueModel,
                EvalErrorModel,
            >(e@),
        },
{
    proof {
        lemma_plan_model_of(plan@);
    }
    let ghost pm = plan_model_of(plan@);
    proof {
        assert(pm.skip(0) =~= pm);
    }
    let mut state = initial;
    let mut i: usize = 0;
    while i < plan.len()
        invariant
            i <= plan.len(),
            pure_plan(pm) ==> spec_eval(initial@, pm) == spec_eval(state@, pm.skip(i as int)),
        decreases plan.len() - i,
    {
        let ghost tail = pm.skip(i as int);
        proof {
            assert(tail[0] == pm[i as int]);
            assert(tail.drop_first() =~= pm.skip(i + 1));
        }
        let next: Value = match &plan[i] {
            Step::SelectKey { key } => {
                match &state {
                    Value::Obj { .. } => {},
                    _ => {
                        return Err(EvalError::NotAnObject);
                    },
                }
                lookup_or_null_ex(&state, key)
            },
            Step::Index { offset } => {
                match &state {
                    Value::Arr { items } => {
                        proof {
                            lemma_models_of(items@);
                        }
                        let len = items.len();
                        let n: usize;
                        if *offset < 0 {
                            let mag: usize = if *offset == isize::MIN {
                                (isize::MAX as usize) + 1
                            } else {
                                match usize::try_from(-*offset) {
                                    Ok(u) => u,
                                    Err(_) => {
                                        return Err(EvalError::IndexOutOfRange);
                                    },
                                }
                            };
                            proof {
                                assert(mag as int == -(*offset as int));
                            }
                            if mag <= len {
                                n = len - mag;
                            } else {
                                return Err(EvalError::IndexOutOfRange);
                            }
                        } else {
                            match usize::try_from(*offset) {
                                Ok(u) => {
                                    if u < len {
                                        n = u;
                                    } else {
                                        return Err(EvalError::IndexOutOfRange);
                                    }
                                },
                                Err(_) => {
                                    return Err(EvalError::IndexOutOfRange);
                                },
                            }
                        }
                        items[n].duplicate()
                    },
                    _ => {
                        return Err(EvalError::NotAnArray);
                    },
                }
            },
            Step::Expression { snippet } => {
                let text = serialize_json(&state);
                match bridge_eval(text.as_str(), snippet.as_str()) {
                    Err(message) => {
                        return Err(EvalError::Script { message });
                    },
                    Ok(answer) => {
                        match parse_json(answer.as_str()) {
                            None => {
                                return Err(EvalError::Undecodable);
                            },
                            Some(v) => v,
                        }
                    },
                }
            },
            Step::BuildObject { entries } => {
                match apply_build(&state, entries) {
                    Err(e) => {
                        return Err(e);
                    },
                    Ok(v) => v,
                }
            },
            Step::Fanout => {
                return Err(EvalError::Unsupported);
            },
            Step::Join => {
                return Err(EvalError::Unsupported);
            },
            Step::Select => {
                return Err(EvalError::Unsupported);
            },
        };
        state = next;
        i += 1;
    }
    proof {
        assert(pm.skip(plan@.len() as int) =~= Seq::<StepModel>::empty());
    }
    Ok(state)
}

} // verus!
