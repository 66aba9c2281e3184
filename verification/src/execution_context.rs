//! What expressions are evaluated against.

use vstd::prelude::*;

use crate::columnar_records::ColumnarRecords;
use crate::expressions::{ExpressionFunctions, PipelineConstant};
use crate::named_values::NamedValues;
use crate::resolved_value::ResolvedSingleOrDictionaryValue;

verus! {

/// The variables of an evaluation.
pub struct ExecutionContextVariables<'a> {
    pub global_variables: &'a NamedValues<ResolvedSingleOrDictionaryValue>,
    pub local_variables: NamedValues<ResolvedSingleOrDictionaryValue>,
}

impl<'a> ExecutionContextVariables<'a> {
    /// The variables of a pipeline, and no local ones.
    pub fn new(global_variables: &'a NamedValues<ResolvedSingleOrDictionaryValue>) -> (r: Self)
        ensures
            r.global_variables@ == global_variables@,
            r.local_variables@ == (Map::<Seq<char>, ResolvedSingleOrDictionaryValue>::empty()),
    {
        ExecutionContextVariables { global_variables, local_variables: NamedValues::new() }
    }

    /// The variable of a name: the local one, else the global one.
    pub open spec fn variable(&self, name: Seq<char>) -> Option<ResolvedSingleOrDictionaryValue> {
        if self.local_variables@.contains_key(name) {
            Some(self.local_variables@[name])
        } else if self.global_variables@.contains_key(name) {
            Some(self.global_variables@[name])
        } else {
            None
        }
    }

    /// Whether the dictionaries among the variables have only positions of values.
    pub open spec fn wf(&self) -> bool {
        forall|name: Seq<char>| #[trigger] self.variable(name) matches Some(value) ==> value.wf()
    }

    /// The variable of a name: the local one, else the global one.
    pub fn get_global_or_local_variable(&self, name: &str) -> (r: Option<
        &ResolvedSingleOrDictionaryValue,
    >)
        ensures
            r is Some == self.variable(name@) is Some,
            r matches Some(value) ==> self.variable(name@) == Some(*value),
    {
        match self.local_variables.get(name) {
            Some(value) => Some(value),
            None => self.global_variables.get(name),
        }
    }
}

/// What expressions are evaluated against: the operations of the query language, the constants of the
/// pipeline, the variables and the records.
pub struct ExecutionContext<'a, F: ExpressionFunctions, R: ColumnarRecords> {
    pub functions: &'a F,
    pub constants: &'a Vec<PipelineConstant>,
    pub variables: ExecutionContextVariables<'a>,
    pub records: Option<&'a R>,
}

}
