use vstd::prelude::*;

verus! {

/// A named notification for the user interface, carrying a text payload.
#[derive(Clone, Debug, PartialEq, Eq)]
pub struct UiEvent {
    pub name: String,
    pub payload: String,
}

/// Tag of the events that carry one line of the tool's standard output.
pub open spec fn cli_output_tag() -> Seq<char> {
    "cli-output"@
}

/// Tag of the events that carry one line of the tool's standard error.
pub open spec fn cli_error_tag() -> Seq<char> {
    "cli-error"@
}

/// Tag of the events that announce a change of a watched file.
pub open spec fn config_changed_tag() -> Seq<char> {
    "config-file-changed"@
}

} // verus!
