use vstd::prelude::*;

verus! {

/// Why a ledger operation was refused.
///
/// Every failure is a synchronous validation failure: the first failing check
/// aborts the whole operation and nothing is mutated.
#[derive(Clone, Copy, Debug, PartialEq, Eq, Structural)]
pub enum BudgetError {
    /// The caller's identity is not the authority of the organization it addressed.
    Unauthorized,
    /// A department allocation would exceed the organization's total budget.
    InsufficientBudget,
    /// A scheduled payment would push cumulative department usage past its allocation.
    DepartmentBudgetExceeded,
    /// The operation expected a `Scheduled` payment but found another status.
    InvalidPaymentStatus,
    /// Execution was attempted before the payment's execution date.
    PaymentNotDue,
    /// The addressed entity already exists in the store.
    AlreadyExists,
    /// The addressed entity does not exist in the store.
    NotFound,
    /// Recording the debit would overflow the department's usage counter.
    InvalidAmount,
}

} // verus!
