//! Replies to the operator's endpoint management requests.
use vstd::prelude::*;

verus! {

/// The outcome of an admin request: whether it succeeded, and a message.
#[derive(Debug, Clone, Copy)]
pub struct AdminReply {
    pub success: bool,
    pub message: &'static str,
}

/// The reply to adding an endpoint, given whether it was added.
pub fn add_reply(added: bool) -> (r: AdminReply)
    ensures
        r.success == added,
        r.message@ == if added {
            "Added endpoint"@
        } else {
            "Endpoint already exists"@
        },
{
    if added {
        AdminReply { success: true, message: "Added endpoint" }
    } else {
        AdminReply { success: false, message: "Endpoint already exists" }
    }
}

/// The reply to removing an endpoint.
pub fn remove_reply() -> (r: AdminReply)
    ensures
        r.success,
        r.message@ == "Removed endpoint"@,
{
    AdminReply { success: true, message: "Removed endpoint" }
}

/// The reply to disabling (or enabling) an endpoint, given whether it was found.
pub fn disable_reply(found: bool, disabled: bool) -> (r: AdminReply)
    ensures
        r.success == found,
        r.message@ == if !found {
            "Endpoint not found"@
        } else if disabled {
            "Disabled endpoint"@
        } else {
            "Enabled endpoint"@
        },
{
    if !found {
        AdminReply { success: false, message: "Endpoint not found" }
    } else if disabled {
        AdminReply { success: true, message: "Disabled endpoint" }
    } else {
        AdminReply { success: true, message: "Enabled endpoint" }
    }
}

} // verus!
