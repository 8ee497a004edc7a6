//! Identifiers made of the time, the process and the thread, each in base 36.
use vstd::prelude::*;

use crate::endpoint::EndpointId;
use crate::radix_fmt::{radix_chars, FormatRadix, MAX_BASE};

verus! {

/// `<ns>-<process>-<thread>`, each number in base 36.
pub open spec fn id_text(ns: nat, process_id: nat, thread_hash: nat) -> Seq<char> {
    radix_chars(ns, 36, false) + "-"@ + radix_chars(process_id, 36, false) + "-"@ + radix_chars(
        thread_hash,
        36,
        false,
    )
}

/// The identifier for a time in nanoseconds, a process id and a thread hash.
pub fn time_thread_id_from(ns: u128, process_id: u32, thread_hash: u64) -> (r: String)
    ensures
        r@ == id_text(ns as nat, process_id as nat, thread_hash as nat),
{
    let mut id = ns.format_to_base(MAX_BASE);
    id.append("-");
    let p = process_id.format_to_base(MAX_BASE);
    id.append(p.as_str());
    id.append("-");
    let t = thread_hash.format_to_base(MAX_BASE);
    id.append(t.as_str());
    id
}

/// Relies on std::time::SystemTime::now, duration_since(UNIX_EPOCH) and as_nanos:
/// nanoseconds since the Unix epoch (zero for a clock set before it). Nothing is
/// promised of the value.
#[verifier::external_body]
pub(crate) fn now_ns() -> (r: u128) {
    std::time::SystemTime::now().duration_since(std::time::UNIX_EPOCH).map(|d| d.as_nanos()).unwrap_or(
        0,
    )
}

impl EndpointId {
    /// An identity made of the current time in nanoseconds, the process id and a
    /// hash of the current thread's id. Distinct calls give distinct identities
    /// only as far as the clock advances between them; nothing here promises it.
    pub fn time_random(process_id: u32, thread_hash: u64) -> (r: EndpointId)
        ensures
            exists|ns: u128| r@ == #[trigger] id_text(ns as nat, process_id as nat, thread_hash as nat),
    {
        let ns = now_ns();
        EndpointId::new(time_thread_id_from(ns, process_id, thread_hash))
    }
}

} // verus!
