//! What the app makes of the answers of the device-security SDK.

use vstd::prelude::*;

verus! {

/// A text answer of the SDK: an empty answer means it has none.
pub fn sdk_reply(value: String) -> (r: Option<String>)
    ensures
        r == (if value@.len() == 0 {
            None
        } else {
            Some(value)
        }),
{
    if value.as_str().is_empty() {
        None
    } else {
        Some(value)
    }
}

} // verus!
