//! The environmental-mode detector: decides Active or Inactive from the
//! assertions document. Reading the document from disk is the caller's step;
//! every decision about its content is made and verified here.
use vstd::prelude::*;

use crate::json::{get_spec, json_get, json_of, parse_json, JsonValue};
use crate::models::FocusState;

verus! {

/// Whether one record of the assertions array carries a live assertion:
/// its field is present and neither null nor `false`.
pub open spec fn truthy_assertion_spec(rec: JsonValue) -> bool {
    match get_spec(rec, "storeAssertionRecords"@) {
        Some(v) => match v {
            JsonValue::Null => false,
            JsonValue::Bool(b) => b,
            _ => true,
        },
        None => false,
    }
}

fn assertion_truthy(rec: &JsonValue) -> (r: bool)
    ensures
        r == truthy_assertion_spec(*rec),
{
    match json_get(rec, "storeAssertionRecords") {
        Some(v) => match v {
            JsonValue::Null => false,
            JsonValue::Bool(b) => *b,
            _ => true,
        },
        None => false,
    }
}

/// The mode is active exactly when the document's records array holds at
/// least one record with a live assertion.
pub open spec fn focus_active_spec(doc: JsonValue) -> bool {
    match get_spec(doc, "data"@) {
        Some(v) => match v {
            JsonValue::Arr(records) => exists|i: int|
                0 <= i < records@.len() && truthy_assertion_spec(records@[i]),
            _ => false,
        },
        None => false,
    }
}

/// Whether the parsed assertions document reports the active mode.
pub fn is_focus_active(data: &JsonValue) -> (r: bool)
    ensures
        r == focus_active_spec(*data),
{
    match json_get(data, "data") {
        Some(v) => match v {
            JsonValue::Arr(records) => {
                let n = records.len();
                let mut i: usize = 0;
                while i < n
                    invariant
                        0 <= i <= n,
                        n == records@.len(),
                        focus_active_spec(*data) == exists|k: int|
                            0 <= k < records@.len() && truthy_assertion_spec(records@[k]),
                        forall|k: int| 0 <= k < i ==> !truthy_assertion_spec(records@[k]),
                    decreases n - i,
                {
                    if assertion_truthy(&records[i]) {
                        return true;
                    }
                    i = i + 1;
                }
                false
            },
            _ => false,
        },
        None => false,
    }
}

/// What the detector reports for a given read outcome: `None` (the document
/// could not be read) and unparseable text both fail safe to Inactive.
pub open spec fn focus_state_spec(text: Option<Seq<char>>) -> FocusState {
    match text {
        Some(t) => match json_of(t) {
            Some(doc) => if focus_active_spec(doc) {
                FocusState::Active
            } else {
                FocusState::Inactive
            },
            None => FocusState::Inactive,
        },
        None => FocusState::Inactive,
    }
}

/// Reads the external assertions document and reports the binary mode.
pub struct FocusModeDetector {
    assertions_path: String,
}

impl FocusModeDetector {
    /// The path this detector was created with.
    pub closed spec fn path_spec(&self) -> Seq<char> {
        self.assertions_path@
    }

    pub fn new(assertions_path: String) -> (r: FocusModeDetector)
        ensures
            r.path_spec() == assertions_path@,
    {
        FocusModeDetector { assertions_path }
    }

    /// Where the assertions document lives.
    pub fn path(&self) -> (r: &String)
        ensures
            r@ == self.path_spec(),
    {
        &self.assertions_path
    }

    /// Decide the mode from the text read at the assertions path, `None`
    /// standing for a failed read.
    pub fn state_from_text(&self, text: Option<&str>) -> (r: FocusState)
        ensures
            r == focus_state_spec(
                match text {
                    Some(t) => Some(t@),
                    None => None,
                },
            ),
    {
        match text {
            Some(t) => match parse_json(t) {
                Some(doc) => {
                    if is_focus_active(&doc) {
                        FocusState::Active
                    } else {
                        FocusState::Inactive
                    }
                },
                None => FocusState::Inactive,
            },
            None => FocusState::Inactive,
        }
    }
}

} // verus!
