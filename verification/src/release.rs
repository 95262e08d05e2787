//! Deleting releases.

use vstd::prelude::*;

verus! {

/// What a user is told after the release `version` was to be deleted. `deleted` tells
/// whether the server deleted it.
pub fn deletion_message(version: &str, deleted: bool) -> (text: String)
    ensures
        deleted ==> text@ == "Deleted release "@ + version@ + "!"@,
        !deleted ==> text@ == "Did nothing. Release with this version ("@ + version@
            + ") does not exist."@,
{
    if deleted {
        let mut text = "Deleted release ".to_owned();
        text.append(version);
        text.append("!");
        text
    } else {
        let mut text = "Did nothing. Release with this version (".to_owned();
        text.append(version);
        text.append(") does not exist.");
        text
    }
}

} // verus!
