//! Small helpers on values.
use vstd::prelude::*;
use vstd::std_specs::convert::IntoSpec;

verus! {

/// A text as an optional value: the empty text is no value.
pub open spec fn non_empty(text: String) -> Option<String> {
    if text@.len() == 0 {
        None
    } else {
        Some(text)
    }
}

/// Turns the empty string into `None` and any other string into `Some` of it.
pub fn non_empty_text(text: String) -> (res: Option<String>)
    ensures
        res == non_empty(text),
{
    if text.as_str().is_empty() {
        None
    } else {
        Some(text)
    }
}

/// Converts `value` into a string, once, and turns the empty string into
/// `None` and any other string into `Some` of it.
pub fn parse_empty_as_option<S>(value: S) -> (res: Option<String>) where S: Into<String>
    ensures
        exists|text: String| call_ensures(S::into, (value,), text) && res == #[trigger] non_empty(text),
        S::obeys_into_spec() ==> res == non_empty(value.into_spec()),
{
    let text: String = value.into();
    non_empty_text(text)
}

} // verus!
