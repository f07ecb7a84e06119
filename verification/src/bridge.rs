use vstd::prelude::*;
use pyo3::types::IntoPyDict;
use pyo3::types::PyAnyMethods;
use rustpython_parser::Parse;

verus! {

/// Whether a piece of text is one complete, syntactically valid
/// embedded expression.  The boundary resolver probes prefixes of the
/// remaining query text against this predicate.
pub uninterp spec fn expr_ok(s: Seq<char>) -> bool;

/// Relies on `rustpython_parser`'s `ast::Expr::parse`: whether one
/// complete expression parses from the given source is a pure function
/// of the text alone (the path argument only labels diagnostics).
#[verifier::external_body]
pub fn is_valid_expression(text: &str) -> (r: bool)
    ensures
        r == expr_ok(text@),
{
    rustpython_parser::ast::Expr::parse(text, "").is_ok()
}

/// Relies on pyo3's `Python::with_gil`, `import_bound`, `eval_bound`
/// and `extract`: binds the serialized current state to the
/// conventional variable, evaluates the snippet, and hands back the
/// result serialized as JSON text.  The snippet may reach the clock,
/// the environment or anything else the embedded language offers, so
/// nothing is promised of the outcome.
#[verifier::external_body]
pub fn bridge_eval(state_json: &str, snippet: &str) -> (r: Result<String, String>)
{
    pyo3::Python::with_gil(|py| -> Result<String, String> {
        let json_mod = py.import_bound("json").map_err(|e| e.to_string())?;
        let locals = [("json", json_mod)].into_py_dict_bound(py);
        py.eval_bound(&format!("(_ := {})", state_json), None, Some(&locals))
            .map_err(|e| e.to_string())?;
        let result = py
            .eval_bound(&format!("json.dumps{}", snippet), None, Some(&locals))
            .map_err(|e| e.to_string())?;
        result.extract::<String>().map_err(|e| e.to_string())
    })
}

} // verus!
