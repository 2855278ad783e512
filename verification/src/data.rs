//! Request data: the immutable template material a run reads — body,
//! headers, query parameters, path variables, and named variable sets from
//! which one value is drawn at random per request.

use vstd::prelude::*;

use crate::text::string_eq;

verus! {

/// `serde_json::Value` carries the optional request body through the
/// template. The library never looks inside it; loading and serializing the
/// value happen outside.
#[verifier::external_type_specification]
#[verifier::external_body]
pub struct ExValue(serde_json::Value);

/// Relies on rand::random: draws one value from the thread-local generator.
/// Nothing is promised of the result.
pub assume_specification<T>[ rand::random::<T> ]() -> (r: T)
    where
        rand::distr::StandardUniform: rand::distr::Distribution<T>,
;

/// Request data structure for load testing: everything a dispatched request
/// is built from, constructed once and then only read.
pub struct RequestData {
    /// HTTP request body, sent with methods that carry one.
    pub body: Option<serde_json::Value>,
    /// HTTP request headers.
    pub headers: Vec<(String, String)>,
    /// URL query parameters.
    pub params: Vec<(String, String)>,
    /// URL path variables.
    pub path_variables: Vec<(String, String)>,
    /// Named variable sets for per-request randomization: each name maps to
    /// the values one of which is drawn per request.
    pub variables: Vec<(String, Vec<String>)>,
}

impl Default for RequestData {
    /// Empty request data: no body, no headers, no parameters, no variables.
    fn default() -> (r: RequestData)
        ensures
            r.body.is_none(),
            r.headers@.len() == 0,
            r.params@.len() == 0,
            r.path_variables@.len() == 0,
            r.variables@.len() == 0,
    {
        RequestData {
            body: None,
            headers: Vec::new(),
            params: Vec::new(),
            path_variables: Vec::new(),
            variables: Vec::new(),
        }
    }
}

/// The position of the first variable set carrying `name`, if any.
pub open spec fn find_variable_set(vars: Seq<(String, Vec<String>)>, name: Seq<char>) -> Option<
    int,
>
    decreases vars.len(),
{
    if vars.len() == 0 {
        Option::<int>::None
    } else if vars[0].0@ == name {
        Option::Some(0int)
    } else {
        match find_variable_set(vars.drop_first(), name) {
            Option::Some(i) => Option::Some(i + 1),
            Option::None => Option::<int>::None,
        }
    }
}

/// With no match before position `i`, the search is decided at `i`: a match
/// there is the answer, and a list exhausted there has none.
proof fn lemma_find_variable_prefix(vars: Seq<(String, Vec<String>)>, name: Seq<char>, i: int)
    requires
        0 <= i <= vars.len(),
        forall|m: int| 0 <= m < i ==> vars[m].0@ != name,
    ensures
        i < vars.len() && vars[i].0@ == name ==> find_variable_set(vars, name) == Option::Some(i),
        i == vars.len() ==> find_variable_set(vars, name) is None,
    decreases i,
{
    if i > 0 {
        assert(vars[0].0@ != name);
        let tail = vars.drop_first();
        assert(forall|m: int| 0 <= m < i - 1 ==> #[trigger] tail[m].0@ != name) by {
            assert(forall|m: int| 0 <= m < tail.len() ==> #[trigger] tail[m] == vars[m + 1]);
        }
        lemma_find_variable_prefix(tail, name, i - 1);
        if i < vars.len() {
            assert(tail[i - 1] == vars[i]);
        }
    }
}

/// Whether `v` is one of the values of the variable set at position `i`.
pub open spec fn in_variable_set(vars: Seq<(String, Vec<String>)>, i: int, v: Seq<char>) -> bool {
    exists|j: int| 0 <= j < vars[i].1@.len() && v == #[trigger] vars[i].1@[j]@
}

impl RequestData {
    /// Get a random value from the variable set named `name`. Returns `None`
    /// when no set carries that name or the set is empty; otherwise one of
    /// the set's own values, drawn at random. Which one comes back is not
    /// specified — only that it belongs to the set.
    pub fn get_random_variable(&self, name: &str) -> (r: Option<String>)
        ensures
            find_variable_set(self.variables@, name@) is None ==> r.is_none(),
            find_variable_set(self.variables@, name@) matches Some(i) ==> (r.is_some()
                <==> self.variables@[i].1@.len() > 0),
            find_variable_set(self.variables@, name@) matches Some(i) ==> (r matches Some(v)
                ==> in_variable_set(self.variables@, i, v@)),
    {
        let ghost vars = self.variables@;
        let name_owned = name.to_owned();
        let mut i: usize = 0;
        while i < self.variables.len()
            invariant
                self.variables@ == vars,
                name_owned@ == name@,
                0 <= i <= vars.len(),
                forall|m: int| 0 <= m < i ==> vars[m].0@ != name@,
            ensures
                self.variables@ == vars,
                name_owned@ == name@,
                0 <= i <= vars.len(),
                forall|m: int| 0 <= m < i ==> vars[m].0@ != name@,
                i < vars.len() ==> vars[i as int].0@ == name@,
            decreases vars.len() - i,
        {
            let entry = &self.variables[i];
            let same = string_eq(&entry.0, &name_owned);
            if same {
                break;
            }
            i = i + 1;
        }
        proof {
            lemma_find_variable_prefix(vars, name@, i as int);
        }
        if i == self.variables.len() {
            return None;
        }
        let values = &self.variables[i].1;
        let n = values.len();
        if n == 0 {
            return None;
        }
        let draw = rand::random::<u64>();
        let idx = (draw % (n as u64)) as usize;
        let chosen = values[idx].clone();
        proof {
            assert(idx < n);
            assert(values@ == self.variables@[i as int].1@);
            assert(chosen@ == self.variables@[i as int].1@[idx as int]@);
            assert(find_variable_set(vars, name@) == Option::Some(i as int));
            assert(in_variable_set(vars, i as int, chosen@)) by {
                assert((idx as int) < vars[i as int].1@.len());
                assert(chosen@ == vars[i as int].1@[idx as int]@);
            }
        }
        Some(chosen)
    }
}

} // verus!
