//! Coded diagnostics for input and validation errors, and the plain parts of
//! the problem format.
use vstd::prelude::*;

verus! {

/// A coded error reported at the input boundary.
#[derive(Clone, Debug)]
pub struct FormatError {
    /// The error code in the registry, such as `E1300`.
    pub code: String,
    /// What went wrong.
    pub cause: String,
    /// What to do to recover.
    pub action: String,
    /// Further details.
    pub details: Option<String>,
}

/// `"<code>, cause: '<cause>', action: '<action>'."`
pub open spec fn error_text(code: Seq<char>, cause: Seq<char>, action: Seq<char>) -> Seq<char> {
    code + ", cause: '"@ + cause + "', action: '"@ + action + "'."@
}

/// The texts of the first `n` errors joined with `sep`.
pub open spec fn joined_errors(errors: Seq<FormatError>, sep: Seq<char>, n: int) -> Seq<char>
    decreases n,
{
    if n <= 0 {
        Seq::empty()
    } else if n == 1 {
        errors[0].text()
    } else {
        joined_errors(errors, sep, n - 1) + sep + errors[n - 1].text()
    }
}

/// The strings joined with `sep`.
pub open spec fn joined(items: Seq<Seq<char>>, sep: Seq<char>) -> Seq<char>
    decreases items.len(),
{
    if items.len() == 0 {
        Seq::empty()
    } else if items.len() == 1 {
        items[0]
    } else {
        joined(items.drop_last(), sep) + sep + items.last()
    }
}

/// Joins strings with a separator.
pub fn join_strings(items: &Vec<String>, sep: &str) -> (r: String)
    ensures
        r@ == joined(items@.map_values(|s: String| s@), sep@),
{
    let ghost views = items@.map_values(|s: String| s@);
    let mut r = String::new();
    let mut i: usize = 0;
    while i < items.len()
        invariant
            i <= items@.len(),
            views == items@.map_values(|s: String| s@),
            r@ == joined(views.take(i as int), sep@),
        decreases items@.len() - i,
    {
        if i > 0 {
            r.append(sep);
        }
        r.append(items[i].as_str());
        proof {
            assert(views.take(i + 1).drop_last() =~= views.take(i as int));
            assert(views.take(i + 1).last() == items@[i as int]@);
            if i == 0 {
                assert(r@ =~= views.take(1)[0]);
            }
        }
        i = i + 1;
    }
    assert(views.take(items@.len() as int) =~= views);
    r
}

impl FormatError {
    pub open spec fn text(&self) -> Seq<char> {
        error_text(self.code@, self.cause@, self.action@)
    }

    /// An error without details.
    pub fn new(code: String, cause: String, action: String) -> (r: FormatError)
        ensures
            r.code@ == code@,
            r.cause@ == cause@,
            r.action@ == action@,
            r.details.is_none(),
    {
        FormatError { code, cause, action, details: None }
    }

    /// An error with details.
    pub fn new_with_details(code: String, cause: String, action: String, details: String) -> (r: FormatError)
        ensures
            r.code@ == code@,
            r.cause@ == cause@,
            r.action@ == action@,
            r.details matches Some(d) && d@ == details@,
    {
        FormatError { code, cause, action, details: Some(details) }
    }

    /// The error as one line of text.
    pub fn to_string(&self) -> (r: String)
        ensures
            r@ == self.text(),
    {
        let mut r = self.code.clone();
        r.append(", cause: '");
        r.append(self.cause.as_str());
        r.append("', action: '");
        r.append(self.action.as_str());
        r.append("'.");
        r
    }

    /// The errors as text, joined with `separator`.
    pub fn format_many(errors: &[FormatError], separator: &str) -> (r: String)
        ensures
            r@ == joined_errors(errors@, separator@, errors@.len() as int),
    {
        let mut r = String::new();
        let mut i: usize = 0;
        while i < errors.len()
            invariant
                i <= errors@.len(),
                r@ == joined_errors(errors@, separator@, i as int),
            decreases errors@.len() - i,
        {
            if i > 0 {
                r.append(separator);
            }
            let t = errors[i].to_string();
            r.append(t.as_str());
            proof {
                if i == 0 {
                    assert(r@ =~= errors@[0].text());
                }
            }
            i = i + 1;
        }
        r
    }
}

/// How jobs are locked to a vehicle.
#[derive(Clone, Copy, Debug, PartialEq, Eq, Structural)]
pub enum RelationType {
    /// Any order.
    Any,
    /// In order, other jobs may come in between.
    Sequence,
    /// In order, nothing in between.
    Strict,
}

/// Locks jobs to a vehicle.
#[derive(Clone, Debug)]
pub struct Relation {
    pub type_field: RelationType,
    /// The ids of the locked jobs.
    pub jobs: Vec<String>,
    pub vehicle_id: String,
    pub shift_index: Option<usize>,
}

/// Extra configuration, reserved.
#[derive(Clone, Copy, Debug, PartialEq, Eq, Structural)]
pub struct Config {}

/// A routing matrix: equal-length arrays indexed by `from * size + to`.
#[derive(Clone, Debug)]
pub struct Matrix {
    pub profile: Option<String>,
    pub timestamp: Option<String>,
    pub travel_times: Vec<i64>,
    pub distances: Vec<i64>,
    pub error_codes: Option<Vec<i64>>,
}

/// A copy of each string.
pub fn copy_strings(v: &Vec<String>) -> (r: Vec<String>)
    ensures
        r@.len() == v@.len(),
        forall|k: int| 0 <= k < v@.len() ==> (#[trigger] r@[k])@ == v@[k]@,
{
    let mut r: Vec<String> = Vec::new();
    let mut i: usize = 0;
    while i < v.len()
        invariant
            i <= v@.len(),
            r@.len() == i,
            forall|k: int| 0 <= k < i ==> (#[trigger] r@[k])@ == v@[k]@,
        decreases v@.len() - i,
    {
        r.push(v[i].clone());
        i = i + 1;
    }
    r
}

} // verus!
