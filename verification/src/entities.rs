use vstd::prelude::*;

verus! {

/// Longest department name the ledger accepts.
pub const MAX_NAME_LEN: usize = 46;

/// Longest payment memo the ledger accepts.
pub const MAX_MEMO_LEN: usize = 96;

/// Lifecycle state of a scheduled transfer.
///
/// The only transition any operation performs is `Scheduled` to `Executed`.
/// `Failed` is a declared terminal state that no operation produces; it is a
/// reserved extension point, kept so that stored records may carry it.
#[derive(Clone, Copy, Debug, PartialEq, Eq, Structural)]
pub enum PaymentStatus {
    /// Created and waiting for its execution date.
    Scheduled,
    /// Executed: the owning department has been debited and a notification written.
    Executed,
    /// Terminal state with no producing transition.
    Failed,
}

/// Root entity of the ownership tree, one per authority identity.
///
/// The organization is keyed by the identity of its controlling principal,
/// so `authority` is both its key and its owner.
#[derive(Clone, Copy, Debug, PartialEq, Eq, Structural)]
pub struct Organization {
    /// Identity of the controlling principal; immutable after creation.
    pub authority: u64,
    /// Total budget of the organization, mutable only by the authority.
    pub total_budget: u64,
}

/// A named slice of an organization's budget, keyed by `(authority, name)`.
#[derive(Clone, Debug)]
pub struct Department {
    /// Human-readable identifier, unique per organization.
    pub name: String,
    /// Ceiling set at creation; no operation changes it afterwards.
    pub budget_allocation: u64,
    /// Cumulative consumption; starts at 0 and only grows, by exactly the
    /// amount of each payment executed against this department.
    pub budget_used: u64,
    /// Key of the owning organization (the organization's key, not a person).
    pub authority: u64,
}

/// A single scheduled transfer, keyed by its owning department and a
/// caller-chosen `payment_id`.
#[derive(Clone, Debug)]
pub struct Payment {
    /// Amount to transfer when the payment is executed.
    pub amount: u64,
    /// Identity of the payee.
    pub recipient: u64,
    /// Key of the organization that owns the payment's department.
    pub organization: u64,
    /// Name of the owning department; with `organization` this names the department.
    pub department_name: String,
    /// Free-text annotation.
    pub memo: String,
    /// The payment may be executed only at or after this instant (epoch seconds).
    pub execution_date: i64,
    /// Lifecycle state; starts `Scheduled`.
    pub status: PaymentStatus,
    /// Caller-chosen discriminator, unique per department.
    pub payment_id: u64,
}

/// Append-only record written when a payment is executed; at most one per payment.
#[derive(Clone, Debug)]
pub struct Notification {
    /// Key of the organization owning the triggering payment.
    pub organization: u64,
    /// Department name of the triggering payment.
    pub department_name: String,
    /// Identifier of the triggering payment.
    pub payment_id: u64,
    /// Generated description embedding the amount and the recipient.
    pub message: String,
    /// Instant of execution (epoch seconds).
    pub timestamp: i64,
    /// Read flag; starts `false`, settable to `true` idempotently.
    pub is_read: bool,
}

/// Entities addressed by [`crate::ledger::Ledger::initialize`]: the signing
/// authority, whose identity keys the new organization.
#[derive(Clone, Copy, Debug)]
pub struct Initialize {
    /// Verified identity of the caller.
    pub authority: u64,
}

/// Entities addressed by [`crate::ledger::Ledger::set_budget`].
#[derive(Clone, Copy, Debug)]
pub struct SetBudget {
    /// Key of the organization whose budget is set.
    pub organization: u64,
    /// Verified identity of the caller; must be the organization's authority.
    pub authority: u64,
}

/// Entities addressed by [`crate::ledger::Ledger::create_department`].
#[derive(Clone, Copy, Debug)]
pub struct CreateDepartment {
    /// Key of the organization under which the department is created.
    pub organization: u64,
    /// Verified identity of the caller; must be the organization's authority.
    pub authority: u64,
}

/// Entities addressed by [`crate::ledger::Ledger::schedule_payment`].
#[derive(Clone, Debug)]
pub struct SchedulePayment {
    /// Key of the organization owning the department.
    pub organization: u64,
    /// Name of the department the payment draws on.
    pub department_name: String,
    /// Verified identity of the caller; must be the organization's authority.
    pub authority: u64,
}

/// Entities addressed by [`crate::ledger::Ledger::execute_payment`].
#[derive(Clone, Debug)]
pub struct ExecutePayment {
    /// Key of the organization owning the department.
    pub organization: u64,
    /// Name of the department the payment draws on.
    pub department_name: String,
    /// Identifier of the payment to execute.
    pub payment_id: u64,
    /// Verified identity of the caller; must be the organization's authority.
    pub authority: u64,
}

/// Entities addressed by [`crate::ledger::Ledger::mark_notification_read`].
///
/// The notification is keyed by its triggering payment. The caller identity is
/// carried as a verified signer but is not compared against the organization's
/// authority: the read flag may be set by any verified caller.
#[derive(Clone, Debug)]
pub struct MarkNotificationRead {
    /// Key of the organization owning the triggering payment.
    pub organization: u64,
    /// Department name of the triggering payment.
    pub department_name: String,
    /// Identifier of the triggering payment.
    pub payment_id: u64,
    /// Verified identity of the caller.
    pub authority: u64,
}

} // verus!
