use crate::strmap::StrMap;
use vstd::prelude::*;

verus! {

/// The process variables that a task handler sees.
#[derive(Debug)]
pub struct TaskContext {
    pub variables: StrMap<String>,
}

impl TaskContext {
    /// The value of a variable.
    pub fn get(&self, key: &str) -> (r: Option<&String>)
        ensures
            match r {
                Some(v) => self.variables@.contains_key(key@) && *v == self.variables@[key@],
                None => !self.variables@.contains_key(key@),
            },
    {
        self.variables.get(key)
    }

    /// Sets a variable, replacing any earlier value.
    pub fn set(&mut self, key: String, value: String)
        ensures
            final(self).variables@ == old(self).variables@.insert(key@, value),
    {
        self.variables.insert(key, value);
    }
}

/// What `set` leaves behind (its postcondition): `get` of the key gives the
/// value set, and `get` of any other key gives what it gave before.
pub proof fn law_context_set_then_get(
    before: TaskContext,
    after: TaskContext,
    k: Seq<char>,
    v: String,
    other: Seq<char>,
)
    requires
        other != k,
        after.variables@ == before.variables@.insert(k, v),
    ensures
        after.variables@.contains_key(k) && after.variables@[k] == v,
        after.variables@.contains_key(other) == before.variables@.contains_key(other),
        before.variables@.contains_key(other) ==> after.variables@[other]
            == before.variables@[other],
{
}

} // verus!
