use vstd::prelude::*;

verus! {

/// A request to accept the share invitation with the given id.
#[derive(Debug, Clone)]
pub struct AcceptInvitation {
    pub id: String,
}

} // verus!
