use vstd::prelude::*;
use vstd::string::StringExecFns;

verus! {

/// An error message: `prefix`, a colon and a space, then the error's
/// display text. It only builds the message: logging it is left to the
/// caller, as the logging macros of the `log` crate cannot stand in
/// verified code.
pub fn format_and_log_error<E: std::fmt::Display>(prefix: &str, e: E) -> (r: String)
    ensures
        exists|detail: String|
            vstd::string::to_string_from_display_ensures::<E>(&e, detail) && r@ == prefix@ + ": "@
                + detail@,
{
    let detail = e.to_string();
    String::from_str(prefix).concat(": ").concat(detail.as_str())
}

} // verus!
