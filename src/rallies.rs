//! Rally registrations as read from the store.

use vstd::prelude::*;

verus! {

/// A rally registration.
pub struct RallyRegistration {
    pub uid: u64,
    pub rally_uid: u64,
    pub user_uid: u64,
    pub partner_attending: bool,
    pub first_time_attendee: bool,
    pub amount_paid_cents: Option<i32>,
    pub amount_due_cents: Option<i32>,
    pub created: i64,
}

} // verus!
