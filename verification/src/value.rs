use vstd::prelude::*;

verus! {

broadcast use vstd::std_specs::vec::group_vec_axioms;

/// The JSON-like tree that evaluation threads from step to step.
///
/// A number keeps the text of its JSON token rather than a binary
/// form, so nothing is lost between reading a document and writing
/// the result back out.
#[derive(Debug, PartialEq)]
pub enum Value {
    Null,
    Bool { b: bool },
    Num { repr: String },
    Str { s: String },
    Arr { items: Vec<Value> },
    Obj { entries: Vec<(String, Value)> },
}

/// The mathematical model of a `Value`: the same tree over sequences.
pub enum ValueModel {
    Null,
    Bool(bool),
    Num(Seq<char>),
    Str(Seq<char>),
    Arr(Seq<ValueModel>),
    Obj(Seq<(Seq<char>, ValueModel)>),
}

pub open spec fn model_of(v: Value) -> ValueModel
    decreases v,
{
    match v {
        Value::Null => ValueModel::Null,
        Value::Bool { b } => ValueModel::Bool(b),
        Value::Num { repr } => ValueModel::Num(repr@),
        Value::Str { s } => ValueModel::Str(s@),
        Value::Arr { items } => ValueModel::Arr(models_of(items@)),
        Value::Obj { entries } => ValueModel::Obj(entry_models_of(entries@)),
    }
}

pub open spec fn models_of(items: Seq<Value>) -> Seq<ValueModel>
    decreases items,
{
    if items.len() == 0 {
        Seq::empty()
    } else {
        seq![model_of(items[0])] + models_of(items.drop_first())
    }
}

pub open spec fn entry_models_of(entries: Seq<(String, Value)>) -> Seq<(Seq<char>, ValueModel)>
    decreases entries,
{
    if entries.len() == 0 {
        Seq::empty()
    } else {
        seq![(entries[0].0@, model_of(entries[0].1))] + entry_models_of(entries.drop_first())
    }
}

impl View for Value {
    type V = ValueModel;

    open spec fn view(&self) -> ValueModel {
        model_of(*self)
    }
}

pub proof fn lemma_models_of(items: Seq<Value>)
    ensures
        models_of(items).len() == items.len(),
        forall|i: int| 0 <= i < items.len() ==> models_of(items)[i] == model_of(items[i]),
    decreases items,
{
    if items.len() > 0 {
        lemma_models_of(items.drop_first());
    }
}

pub proof fn lemma_entry_models_of(entries: Seq<(String, Value)>)
    ensures
        entry_models_of(entries).len() == entries.len(),
        forall|i: int| 0 <= i < entries.len() ==> entry_models_of(entries)[i] == (
            entries[i].0@,
            model_of(entries[i].1),
        ),
    decreases entries,
{
    if entries.len() > 0 {
        lemma_entry_models_of(entries.drop_first());
    }
}

/// The value stored under `key`, looking at entries front to back.
pub open spec fn obj_lookup(
    entries: Seq<(Seq<char>, ValueModel)>,
    key: Seq<char>,
) -> Option<ValueModel>
    decreases entries,
{
    if entries.len() == 0 {
        None
    } else if entries[0].0 == key {
        Some(entries[0].1)
    } else {
        obj_lookup(entries.drop_first(), key)
    }
}

/// Store `val` under `key`: replace the first entry with that key,
/// or append a fresh entry at the back.
pub open spec fn obj_insert(
    entries: Seq<(Seq<char>, ValueModel)>,
    key: Seq<char>,
    val: ValueModel,
) -> Seq<(Seq<char>, ValueModel)>
    decreases entries,
{
    if entries.len() == 0 {
        seq![(key, val)]
    } else if entries[0].0 == key {
        seq![(key, val)] + entries.drop_first()
    } else {
        seq![entries[0]] + obj_insert(entries.drop_first(), key, val)
    }
}

pub proof fn lemma_obj_lookup_found(
    entries: Seq<(Seq<char>, ValueModel)>,
    key: Seq<char>,
    i: int,
)
    requires
        0 <= i < entries.len(),
        entries[i].0 == key,
        forall|j: int| 0 <= j < i ==> entries[j].0 != key,
    ensures
        obj_lookup(entries, key) == Some(entries[i].1),
    decreases i,
{
    if i > 0 {
        lemma_obj_lookup_found(entries.drop_first(), key, i - 1);
    }
}

pub proof fn lemma_obj_lookup_absent(entries: Seq<(Seq<char>, ValueModel)>, key: Seq<char>)
    requires
        forall|j: int| 0 <= j < entries.len() ==> entries[j].0 != key,
    ensures
        obj_lookup(entries, key) is None,
    decreases entries,
{
    if entries.len() > 0 {
        lemma_obj_lookup_absent(entries.drop_first(), key);
    }
}

pub proof fn lemma_obj_insert_found(
    entries: Seq<(Seq<char>, ValueModel)>,
    key: Seq<char>,
    val: ValueModel,
    i: int,
)
    requires
        0 <= i < entries.len(),
        entries[i].0 == key,
        forall|j: int| 0 <= j < i ==> entries[j].0 != key,
    ensures
        obj_insert(entries, key, val) =~= entries.update(i, (key, val)),
    decreases i,
{
    if i == 0 {
        assert(obj_insert(entries, key, val) =~= entries.update(0, (key, val)));
    } else {
        lemma_obj_insert_found(entries.drop_first(), key, val, i - 1);
        assert(obj_insert(entries, key, val) =~= entries.update(i, (key, val)));
    }
}

pub proof fn lemma_obj_insert_absent(
    entries: Seq<(Seq<char>, ValueModel)>,
    key: Seq<char>,
    val: ValueModel,
)
    requires
        forall|j: int| 0 <= j < entries.len() ==> entries[j].0 != key,
    ensures
        obj_insert(entries, key, val) =~= entries.push((key, val)),
    decreases entries,
{
    if entries.len() > 0 {
        lemma_obj_insert_absent(entries.drop_first(), key, val);
        assert(obj_insert(entries, key, val) =~= entries.push((key, val)));
    }
}

impl Value {
    /// A structurally equal copy: the running state is copied on
    /// read, never handed out by reference.
    #[verifier::loop_isolation(false)]
    pub fn duplicate(&self) -> (r: Value)
        ensures
            r@ == self@,
        decreases self,
    {
        match self {
            Value::Null => Value::Null,
            Value::Bool { b } => Value::Bool { b: *b },
            Value::Num { repr } => Value::Num { repr: repr.clone() },
            Value::Str { s } => Value::Str { s: s.clone() },
            Value::Arr { items } => {
                let mut out: Vec<Value> = Vec::new();
                let mut i: usize = 0;
                while i < items.len()
                    invariant
                        i <= items.len(),
                        out@.len() == i,
                        forall|j: int| 0 <= j < i ==> model_of(out@[j]) == model_of(items@[j]),
                    decreases items.len() - i,
                {
                    out.push(items[i].duplicate());
                    i += 1;
                }
                proof {
                    lemma_models_of(out@);
                    lemma_models_of(items@);
                    assert(models_of(out@) =~= models_of(items@));
                }
                Value::Arr { items: out }
            },
            Value::Obj { entries } => {
                let mut out: Vec<(String, Value)> = Vec::new();
                let mut i: usize = 0;
                while i < entries.len()
                    invariant
                        i <= entries.len(),
                        out@.len() == i,
                        forall|j: int| 0 <= j < i ==> out@[j].0@ == entries@[j].0@
                            && model_of(out@[j].1) == model_of(entries@[j].1),
                    decreases entries.len() - i,
                {
                    let key = entries[i].0.clone();
                    let val = entries[i].1.duplicate();
                    out.push((key, val));
                    i += 1;
                }
                proof {
                    lemma_entry_models_of(out@);
                    lemma_entry_models_of(entries@);
                    assert(entry_models_of(out@) =~= entry_models_of(entries@));
                }
                Value::Obj { entries: out }
            },
        }
    }
}

} // verus!
