//! Bringing a configuration file's schema version up to the one this build reads.
use crate::config::validate::{gives, warning};
use crate::config::{ConfigWarning, Severity};
use crate::text::{append_chars, decimal_string, string_from_chars, u64_to_chars};
use vstd::prelude::*;

verus! {

/// The schema version this build reads and writes.
pub const CURRENT_SCHEMA_VERSION: i64 = 1;

fn push_str(out: &mut Vec<char>, s: &str)
    ensures
        final(out)@ == old(out)@ + s@,
{
    let c = crate::text::chars_of(s);
    append_chars(out, &c);
}

/// Migration as the file's `schema_version` decides it (`None` when the key is absent or not an
/// integer): an absent version is stamped with the current one, and a file written by a newer
/// build draws a warning (and is read as best it can be). Gives the version to stamp, if any,
/// and the warning, if any.
pub fn migrate(schema_version: Option<i64>) -> (r: (Option<i64>, Option<ConfigWarning>))
    ensures
        schema_version is None ==> r.0 == Some(CURRENT_SCHEMA_VERSION) && r.1 is None,
        schema_version is Some && schema_version->0 <= CURRENT_SCHEMA_VERSION ==> r.0 is None && r.1 is None,
        schema_version is Some && schema_version->0 > CURRENT_SCHEMA_VERSION ==> r.0 is None && gives(r.1, warning(
            "schema_version"@,
            "config was written by a newer loxia (schema "@ + decimal_string(schema_version->0 as nat)
                + ", this build understands 1); some settings may be ignored"@,
            Severity::Warning,
        )),
{
    match schema_version {
        None => (Some(CURRENT_SCHEMA_VERSION), None),
        Some(v) => {
            if v <= CURRENT_SCHEMA_VERSION {
                (None, None)
            } else {
                let mut m: Vec<char> = Vec::new();
                push_str(&mut m, "config was written by a newer loxia (schema ");
                let n: u64 = v as u64;
                append_chars(&mut m, &u64_to_chars(n));
                push_str(&mut m, ", this build understands 1); some settings may be ignored");
                (None, Some(ConfigWarning::new("schema_version", string_from_chars(&m), Severity::Warning)))
            }
        },
    }
}

} // verus!
