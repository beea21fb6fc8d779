use vstd::prelude::*;
use tokio::sync::Notify;

verus! {

/// tokio's wake-up signal; each node owns one, which wakes the tasks
/// waiting for that node to be canceled.
#[verifier::external_type_specification]
#[verifier::external_body]
pub struct ExNotify(Notify);

/// Relies on tokio::sync::Notify::new: a fresh signal, with no waiter and
/// no stored permit. Nothing about it is used in a proof.
pub assume_specification[ Notify::new ]() -> Notify;

/// Relies on tokio::sync::Notify::notify_waiters: wakes every task then
/// registered on the signal and stores no permit. It returns nothing and
/// does not panic.
pub assume_specification[ Notify::notify_waiters ](notify: &Notify);

} // verus!
