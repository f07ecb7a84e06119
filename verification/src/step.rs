use vstd::prelude::*;

verus! {

/// One typed operation of a parsed plan.
///
/// The last three variants are reserved operator names.  The parser
/// never produces them and the evaluator reports them as unsupported;
/// their semantics are deliberately left undefined.
#[derive(Debug, PartialEq)]
pub enum Step {
    SelectKey { key: String },
    Index { offset: isize },
    Expression { snippet: String },
    BuildObject { entries: Vec<Entry> },
    Fanout,
    Join,
    Select,
}

/// One entry of an object-building step: either copy an existing key
/// verbatim, or compute a fresh key/value pair.  The parts are
/// restricted query forms; the evaluator rejects any other shape.
#[derive(Debug, PartialEq)]
pub enum Entry {
    Select { part: Step },
    Mapped { key_part: Step, value_part: Step },
}

/// The mathematical model of a `Step`.
pub enum StepModel {
    SelectKey(Seq<char>),
    Index(int),
    Expression(Seq<char>),
    BuildObject(Seq<EntryModel>),
    Fanout,
    Join,
    Select,
}

/// The mathematical model of an `Entry`.
pub enum EntryModel {
    Select(StepModel),
    Mapped(StepModel, StepModel),
}

pub open spec fn step_model_of(s: Step) -> StepModel
    decreases s,
{
    match s {
        Step::SelectKey { key } => StepModel::SelectKey(key@),
        Step::Index { offset } => StepModel::Index(offset as int),
        Step::Expression { snippet } => StepModel::Expression(snippet@),
        Step::BuildObject { entries } => StepModel::BuildObject(entry_list_model_of(entries@)),
        Step::Fanout => StepModel::Fanout,
        Step::Join => StepModel::Join,
        Step::Select => StepModel::Select,
    }
}

pub open spec fn entry_model_of(e: Entry) -> EntryModel
    decreases e,
{
    match e {
        Entry::Select { part } => EntryModel::Select(step_model_of(part)),
        Entry::Mapped { key_part, value_part } => EntryModel::Mapped(
            step_model_of(key_part),
            step_model_of(value_part),
        ),
    }
}

pub open spec fn entry_list_model_of(entries: Seq<Entry>) -> Seq<EntryModel>
    decreases entries,
{
    if entries.len() == 0 {
        Seq::empty()
    } else {
        seq![entry_model_of(entries[0])] + entry_list_model_of(entries.drop_first())
    }
}

pub open spec fn plan_model_of(steps: Seq<Step>) -> Seq<StepModel>
    decreases steps,
{
    if steps.len() == 0 {
        Seq::empty()
    } else {
        seq![step_model_of(steps[0])] + plan_model_of(steps.drop_first())
    }
}

impl View for Step {
    type V = StepModel;

    open spec fn view(&self) -> StepModel {
        step_model_of(*self)
    }
}

impl View for Entry {
    type V = EntryModel;

    open spec fn view(&self) -> EntryModel {
        entry_model_of(*self)
    }
}

pub proof fn lemma_entry_list_model_of(entries: Seq<Entry>)
    ensures
        entry_list_model_of(entries).len() == entries.len(),
        forall|i: int| 0 <= i < entries.len() ==> entry_list_model_of(entries)[i]
            == entry_model_of(entries[i]),
    decreases entries,
{
    if entries.len() > 0 {
        lemma_entry_list_model_of(entries.drop_first());
    }
}

pub proof fn lemma_plan_model_of(steps: Seq<Step>)
    ensures
        plan_model_of(steps).len() == steps.len(),
        forall|i: int| 0 <= i < steps.len() ==> plan_model_of(steps)[i] == step_model_of(steps[i]),
    decreases steps,
{
    if steps.len() > 0 {
        lemma_plan_model_of(steps.drop_first());
    }
}

} // verus!
