use vstd::prelude::*;

verus! {

/// Progress of one deployed resource, as reported to the user interface.
#[derive(Clone, Debug)]
pub struct DeploymentUpdate {
    pub resource_id: String,
    pub status: String,
    pub message: String,
}

/// Current deployment progress. No source of updates is integrated yet, so
/// the list is always empty and the call never fails.
pub fn get_deployment_status() -> (r: Result<Vec<DeploymentUpdate>, String>)
    ensures
        r is Ok,
        r matches Ok(v) && v@.len() == 0,
{
    Ok(Vec::new())
}

} // verus!
