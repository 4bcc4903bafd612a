use vstd::prelude::*;
use crate::entities::{
    Department, Notification, Organization, Payment, PaymentStatus, MAX_MEMO_LEN, MAX_NAME_LEN,
};
use crate::errors::BudgetError;
use crate::text::payment_message;

verus! {

// ---------------------------------------------------------------------------
// Views: the mathematical image of each stored entity and of the whole ledger.
// ---------------------------------------------------------------------------

/// Mathematical image of an [`Organization`].
#[verifier::ext_equal]
pub ghost struct OrganizationView {
    pub authority: u64,
    pub total_budget: u64,
}

/// Mathematical image of a [`Department`].
#[verifier::ext_equal]
pub ghost struct DepartmentView {
    pub name: Seq<char>,
    pub budget_allocation: u64,
    pub budget_used: u64,
    pub authority: u64,
}

/// Mathematical image of a [`Payment`].
#[verifier::ext_equal]
pub ghost struct PaymentView {
    pub amount: u64,
    pub recipient: u64,
    pub organization: u64,
    pub department_name: Seq<char>,
    pub memo: Seq<char>,
    pub execution_date: i64,
    pub status: PaymentStatus,
    pub payment_id: u64,
}

/// Mathematical image of a [`Notification`].
#[verifier::ext_equal]
pub ghost struct NotificationView {
    pub organization: u64,
    pub department_name: Seq<char>,
    pub payment_id: u64,
    pub message: Seq<char>,
    pub timestamp: i64,
    pub is_read: bool,
}

/// Mathematical image of the whole ledger: four sequences of entity records.
#[verifier::ext_equal]
pub ghost struct LedgerView {
    pub organizations: Seq<OrganizationView>,
    pub departments: Seq<DepartmentView>,
    pub payments: Seq<PaymentView>,
    pub notifications: Seq<NotificationView>,
}

/// The ledger before any operation: nothing stored.
pub open spec fn empty_ledger() -> LedgerView {
    LedgerView {
        organizations: Seq::empty(),
        departments: Seq::empty(),
        payments: Seq::empty(),
        notifications: Seq::empty(),
    }
}

impl View for Organization {
    type V = OrganizationView;

    open spec fn view(&self) -> OrganizationView {
        OrganizationView { authority: self.authority, total_budget: self.total_budget }
    }
}

impl View for Department {
    type V = DepartmentView;

    open spec fn view(&self) -> DepartmentView {
        DepartmentView {
            name: self.name@,
            budget_allocation: self.budget_allocation,
            budget_used: self.budget_used,
            authority: self.authority,
        }
    }
}

impl View for Payment {
    type V = PaymentView;

    open spec fn view(&self) -> PaymentView {
        PaymentView {
            amount: self.amount,
            recipient: self.recipient,
            organization: self.organization,
            department_name: self.department_name@,
            memo: self.memo@,
            execution_date: self.execution_date,
            status: self.status,
            payment_id: self.payment_id,
        }
    }
}

impl View for Notification {
    type V = NotificationView;

    open spec fn view(&self) -> NotificationView {
        NotificationView {
            organization: self.organization,
            department_name: self.department_name@,
            payment_id: self.payment_id,
            message: self.message@,
            timestamp: self.timestamp,
            is_read: self.is_read,
        }
    }
}

// ---------------------------------------------------------------------------
// Keys and lookups. Every entity is addressed by a deterministic key derived
// from its parents: an organization by its authority's identity, a department
// by (organization, name), a payment by (department, payment id) and a
// notification by its triggering payment. Lookups are functions of the entity
// sequence alone.
// ---------------------------------------------------------------------------

/// Does `d` carry the department key `(organization, name)`?
pub open spec fn dept_has_key(d: DepartmentView, organization: u64, name: Seq<char>) -> bool {
    d.authority == organization && d.name == name
}

/// Does `p` carry the payment key `(organization, name, payment_id)`?
pub open spec fn payment_has_key(
    p: PaymentView,
    organization: u64,
    name: Seq<char>,
    payment_id: u64,
) -> bool {
    p.organization == organization && p.department_name == name && p.payment_id == payment_id
}

/// Does `n` refer to the payment keyed `(organization, name, payment_id)`?
pub open spec fn notification_has_key(
    n: NotificationView,
    organization: u64,
    name: Seq<char>,
    payment_id: u64,
) -> bool {
    n.organization == organization && n.department_name == name && n.payment_id == payment_id
}

/// Is some organization in `s` keyed by `organization`?
pub open spec fn has_org_in(s: Seq<OrganizationView>, organization: u64) -> bool {
    exists|i: int| 0 <= i < s.len() && (#[trigger] s[i]).authority == organization
}

/// Index in `s` of the organization keyed by `organization` (meaningful under `has_org_in`).
pub open spec fn org_idx_in(s: Seq<OrganizationView>, organization: u64) -> int {
    choose|i: int| 0 <= i < s.len() && (#[trigger] s[i]).authority == organization
}

/// Is some department in `s` keyed `(organization, name)`?
pub open spec fn has_dept_in(s: Seq<DepartmentView>, organization: u64, name: Seq<char>) -> bool {
    exists|i: int| 0 <= i < s.len() && dept_has_key(#[trigger] s[i], organization, name)
}

/// Index in `s` of the department keyed `(organization, name)` (meaningful under `has_dept_in`).
pub open spec fn dept_idx_in(s: Seq<DepartmentView>, organization: u64, name: Seq<char>) -> int {
    choose|i: int| 0 <= i < s.len() && dept_has_key(#[trigger] s[i], organization, name)
}

/// Is some payment in `s` keyed `(organization, name, payment_id)`?
pub open spec fn has_payment_in(
    s: Seq<PaymentView>,
    organization: u64,
    name: Seq<char>,
    payment_id: u64,
) -> bool {
    exists|i: int| 0 <= i < s.len() && payment_has_key(#[trigger] s[i], organization, name, payment_id)
}

/// Index in `s` of the payment keyed `(organization, name, payment_id)`.
pub open spec fn payment_idx_in(
    s: Seq<PaymentView>,
    organization: u64,
    name: Seq<char>,
    payment_id: u64,
) -> int {
    choose|i: int| 0 <= i < s.len() && payment_has_key(#[trigger] s[i], organization, name, payment_id)
}

/// Is some notification in `s` for the payment keyed `(organization, name, payment_id)`?
pub open spec fn has_notification_in(
    s: Seq<NotificationView>,
    organization: u64,
    name: Seq<char>,
    payment_id: u64,
) -> bool {
    exists|i: int|
        0 <= i < s.len() && notification_has_key(#[trigger] s[i], organization, name, payment_id)
}

/// Index in `s` of the notification for the payment keyed `(organization, name, payment_id)`.
pub open spec fn notification_idx_in(
    s: Seq<NotificationView>,
    organization: u64,
    name: Seq<char>,
    payment_id: u64,
) -> int {
    choose|i: int|
        0 <= i < s.len() && notification_has_key(#[trigger] s[i], organization, name, payment_id)
}

impl LedgerView {
    /// Is there an organization keyed by `organization`?
    pub open spec fn has_org(self, organization: u64) -> bool {
        has_org_in(self.organizations, organization)
    }

    /// Index of the organization keyed by `organization` (meaningful under `has_org`).
    pub open spec fn org_idx(self, organization: u64) -> int {
        org_idx_in(self.organizations, organization)
    }

    /// The organization keyed by `organization` (meaningful under `has_org`).
    pub open spec fn org(self, organization: u64) -> OrganizationView {
        self.organizations[self.org_idx(organization)]
    }

    /// Is there a department keyed `(organization, name)`?
    pub open spec fn has_dept(self, organization: u64, name: Seq<char>) -> bool {
        has_dept_in(self.departments, organization, name)
    }

    /// Index of the department keyed `(organization, name)` (meaningful under `has_dept`).
    pub open spec fn dept_idx(self, organization: u64, name: Seq<char>) -> int {
        dept_idx_in(self.departments, organization, name)
    }

    /// The department keyed `(organization, name)` (meaningful under `has_dept`).
    pub open spec fn dept(self, organization: u64, name: Seq<char>) -> DepartmentView {
        self.departments[self.dept_idx(organization, name)]
    }

    /// Is there a payment keyed `(organization, name, payment_id)`?
    pub open spec fn has_payment(self, organization: u64, name: Seq<char>, payment_id: u64) -> bool {
        has_payment_in(self.payments, organization, name, payment_id)
    }

    /// Index of the payment keyed `(organization, name, payment_id)`.
    pub open spec fn payment_idx(self, organization: u64, name: Seq<char>, payment_id: u64) -> int {
        payment_idx_in(self.payments, organization, name, payment_id)
    }

    /// The payment keyed `(organization, name, payment_id)` (meaningful under `has_payment`).
    pub open spec fn payment(self, organization: u64, name: Seq<char>, payment_id: u64) -> PaymentView {
        self.payments[self.payment_idx(organization, name, payment_id)]
    }

    /// Is there a notification for the payment keyed `(organization, name, payment_id)`?
    pub open spec fn has_notification(
        self,
        organization: u64,
        name: Seq<char>,
        payment_id: u64,
    ) -> bool {
        has_notification_in(self.notifications, organization, name, payment_id)
    }

    /// Index of the notification for the payment keyed `(organization, name, payment_id)`.
    pub open spec fn notification_idx(
        self,
        organization: u64,
        name: Seq<char>,
        payment_id: u64,
    ) -> int {
        notification_idx_in(self.notifications, organization, name, payment_id)
    }

    /// The notification for the payment keyed `(organization, name, payment_id)`.
    pub open spec fn notification(
        self,
        organization: u64,
        name: Seq<char>,
        payment_id: u64,
    ) -> NotificationView {
        self.notifications[self.notification_idx(organization, name, payment_id)]
    }

    // -----------------------------------------------------------------------
    // Well-formedness: key uniqueness, the strict ownership tree, the bounded
    // text fields, and the tie between notifications and executed payments.
    // -----------------------------------------------------------------------

    /// Organization keys (authority identities) are unique.
    pub open spec fn orgs_unique(self) -> bool {
        forall|i: int, j: int|
            0 <= i < self.organizations.len() && 0 <= j < self.organizations.len() && i != j
                ==> (#[trigger] self.organizations[i]).authority
                != (#[trigger] self.organizations[j]).authority
    }

    /// Department keys `(organization, name)` are unique.
    pub open spec fn depts_unique(self) -> bool {
        forall|i: int, j: int|
            0 <= i < self.departments.len() && 0 <= j < self.departments.len() && i != j
                ==> !dept_has_key(
                #[trigger] self.departments[i],
                (#[trigger] self.departments[j]).authority,
                self.departments[j].name,
            )
    }

    /// Payment keys `(organization, name, payment_id)` are unique.
    pub open spec fn payments_unique(self) -> bool {
        forall|i: int, j: int|
            0 <= i < self.payments.len() && 0 <= j < self.payments.len() && i != j
                ==> !payment_has_key(
                #[trigger] self.payments[i],
                (#[trigger] self.payments[j]).organization,
                self.payments[j].department_name,
                self.payments[j].payment_id,
            )
    }

    /// At most one notification exists per payment.
    pub open spec fn notifications_unique(self) -> bool {
        forall|i: int, j: int|
            0 <= i < self.notifications.len() && 0 <= j < self.notifications.len() && i != j
                ==> !notification_has_key(
                #[trigger] self.notifications[i],
                (#[trigger] self.notifications[j]).organization,
                self.notifications[j].department_name,
                self.notifications[j].payment_id,
            )
    }

    /// Every department belongs to an existing organization.
    pub open spec fn dept_parents_exist(self) -> bool {
        forall|i: int|
            0 <= i < self.departments.len() ==> has_org_in(
                self.organizations,
                (#[trigger] self.departments[i]).authority,
            )
    }

    /// Every payment belongs to an existing department.
    pub open spec fn payment_parents_exist(self) -> bool {
        forall|i: int|
            0 <= i < self.payments.len() ==> has_dept_in(
                self.departments,
                (#[trigger] self.payments[i]).organization,
                self.payments[i].department_name,
            )
    }

    /// Every notification refers to an existing payment, and only an executed
    /// payment ever has a notification.
    pub open spec fn notification_parents_executed(self) -> bool {
        forall|i: int|
            0 <= i < self.notifications.len() ==> {
                let n = #[trigger] self.notifications[i];
                has_payment_in(self.payments, n.organization, n.department_name, n.payment_id)
                    && self.payments[payment_idx_in(
                    self.payments,
                    n.organization,
                    n.department_name,
                    n.payment_id,
                )].status is Executed
            }
    }

    /// Department names are bounded.
    pub open spec fn dept_names_bounded(self) -> bool {
        forall|i: int|
            0 <= i < self.departments.len() ==> (#[trigger] self.departments[i]).name.len()
                <= MAX_NAME_LEN
    }

    /// Payment memos are bounded.
    pub open spec fn payment_memos_bounded(self) -> bool {
        forall|i: int|
            0 <= i < self.payments.len() ==> (#[trigger] self.payments[i]).memo.len()
                <= MAX_MEMO_LEN
    }

    /// The ledger's invariant, established by every operation.
    pub open spec fn wf(self) -> bool {
        &&& self.orgs_unique()
        &&& self.depts_unique()
        &&& self.payments_unique()
        &&& self.notifications_unique()
        &&& self.dept_parents_exist()
        &&& self.payment_parents_exist()
        &&& self.notification_parents_executed()
        &&& self.dept_names_bounded()
        &&& self.payment_memos_bounded()
    }

    // -----------------------------------------------------------------------
    // Transitions: one spec function per operation. Each returns the ledger
    // after the operation together with its result; a failing check returns
    // the ledger unchanged, so no partial mutation is ever visible.
    // -----------------------------------------------------------------------

    /// Creates the organization keyed by the caller's identity, with a total
    /// budget of zero.
    pub open spec fn initialize(self, authority: u64) -> (LedgerView, Result<(), BudgetError>) {
        if self.has_org(authority) {
            (self, Err(BudgetError::AlreadyExists))
        } else {
            (
                LedgerView {
                    organizations: self.organizations.push(
                        OrganizationView { authority: authority, total_budget: 0u64 },
                    ),
                    ..self
                },
                Ok(()),
            )
        }
    }

    /// Overwrites the organization's total budget, unconditionally, if the
    /// caller is its authority. Existing department allocations are not
    /// re-validated against the new budget.
    pub open spec fn set_budget(self, caller: u64, organization: u64, amount: u64) -> (
        LedgerView,
        Result<(), BudgetError>,
    ) {
        if !self.has_org(organization) {
            (self, Err(BudgetError::NotFound))
        } else if caller != self.org(organization).authority {
            (self, Err(BudgetError::Unauthorized))
        } else {
            (
                LedgerView {
                    organizations: self.organizations.update(
                        self.org_idx(organization),
                        OrganizationView {
                            authority: self.org(organization).authority,
                            total_budget: amount,
                        },
                    ),
                    ..self
                },
                Ok(()),
            )
        }
    }

    /// Creates a department with `budget_used` zero. The allocation is checked
    /// once, against the organization's total budget as it stands now; sibling
    /// allocations are not subtracted, so allocations may jointly exceed the
    /// total budget.
    pub open spec fn create_department(
        self,
        caller: u64,
        organization: u64,
        name: Seq<char>,
        budget_allocation: u64,
    ) -> (LedgerView, Result<(), BudgetError>) {
        if !self.has_org(organization) {
            (self, Err(BudgetError::NotFound))
        } else if caller != self.org(organization).authority {
            (self, Err(BudgetError::Unauthorized))
        } else if budget_allocation > self.org(organization).total_budget {
            (self, Err(BudgetError::InsufficientBudget))
        } else if self.has_dept(organization, name) {
            (self, Err(BudgetError::AlreadyExists))
        } else {
            (
                LedgerView {
                    departments: self.departments.push(
                        DepartmentView {
                            name: name,
                            budget_allocation: budget_allocation,
                            budget_used: 0u64,
                            authority: organization,
                        },
                    ),
                    ..self
                },
                Ok(()),
            )
        }
    }

    /// Schedules a payment. The department's remaining allocation is checked
    /// against its current `budget_used` only; scheduling does not debit.
    pub open spec fn schedule_payment(
        self,
        caller: u64,
        organization: u64,
        department_name: Seq<char>,
        amount: u64,
        recipient: u64,
        memo: Seq<char>,
        execution_date: i64,
        payment_id: u64,
    ) -> (LedgerView, Result<(), BudgetError>) {
        if !self.has_org(organization) {
            (self, Err(BudgetError::NotFound))
        } else if caller != self.org(organization).authority {
            (self, Err(BudgetError::Unauthorized))
        } else if !self.has_dept(organization, department_name) {
            (self, Err(BudgetError::NotFound))
        } else if self.dept(organization, department_name).budget_used + amount > self.dept(
            organization,
            department_name,
        ).budget_allocation {
            (self, Err(BudgetError::DepartmentBudgetExceeded))
        } else if self.has_payment(organization, department_name, payment_id) {
            (self, Err(BudgetError::AlreadyExists))
        } else {
            (
                LedgerView {
                    payments: self.payments.push(
                        PaymentView {
                            amount: amount,
                            recipient: recipient,
                            organization: organization,
                            department_name: department_name,
                            memo: memo,
                            execution_date: execution_date,
                            status: PaymentStatus::Scheduled,
                            payment_id: payment_id,
                        },
                    ),
                    ..self
                },
                Ok(()),
            )
        }
    }

    /// Executes a scheduled payment that is due: marks it `Executed`, debits
    /// its department by exactly its amount, and appends the one notification
    /// for it, unread and timestamped `now`. The three mutations happen as a
    /// unit: on any failing check the ledger is unchanged.
    pub open spec fn execute_payment(
        self,
        caller: u64,
        organization: u64,
        department_name: Seq<char>,
        payment_id: u64,
        now: i64,
    ) -> (LedgerView, Result<(), BudgetError>) {
        if !self.has_org(organization) {
            (self, Err(BudgetError::NotFound))
        } else if caller != self.org(organization).authority {
            (self, Err(BudgetError::Unauthorized))
        } else if !self.has_dept(organization, department_name) {
            (self, Err(BudgetError::NotFound))
        } else if !self.has_payment(organization, department_name, payment_id) {
            (self, Err(BudgetError::NotFound))
        } else if !(self.payment(organization, department_name, payment_id).status is Scheduled) {
            (self, Err(BudgetError::InvalidPaymentStatus))
        } else if now < self.payment(organization, department_name, payment_id).execution_date {
            (self, Err(BudgetError::PaymentNotDue))
        } else if self.dept(organization, department_name).budget_used + self.payment(
            organization,
            department_name,
            payment_id,
        ).amount > u64::MAX {
            (self, Err(BudgetError::InvalidAmount))
        } else {
            let p = self.payment(organization, department_name, payment_id);
            let d = self.dept(organization, department_name);
            (
                LedgerView {
                    payments: self.payments.update(
                        self.payment_idx(organization, department_name, payment_id),
                        PaymentView { status: PaymentStatus::Executed, ..p },
                    ),
                    departments: self.departments.update(
                        self.dept_idx(organization, department_name),
                        DepartmentView { budget_used: (d.budget_used + p.amount) as u64, ..d },
                    ),
                    notifications: self.notifications.push(
                        NotificationView {
                            organization: organization,
                            department_name: department_name,
                            payment_id: payment_id,
                            message: payment_message(p.amount, p.recipient),
                            timestamp: now,
                            is_read: false,
                        },
                    ),
                    ..self
                },
                Ok(()),
            )
        }
    }

    /// Sets the notification's read flag, unconditionally and repeatably. The
    /// caller is a verified signer but is not compared against the authority.
    pub open spec fn mark_notification_read(
        self,
        caller: u64,
        organization: u64,
        department_name: Seq<char>,
        payment_id: u64,
    ) -> (LedgerView, Result<(), BudgetError>) {
        if !self.has_notification(organization, department_name, payment_id) {
            (self, Err(BudgetError::NotFound))
        } else {
            (
                LedgerView {
                    notifications: self.notifications.update(
                        self.notification_idx(organization, department_name, payment_id),
                        NotificationView {
                            is_read: true,
                            ..self.notification(organization, department_name, payment_id)
                        },
                    ),
                    ..self
                },
                Ok(()),
            )
        }
    }
}

// ---------------------------------------------------------------------------
// The operations as one alphabet, so that laws can quantify over every step
// the ledger can take.
// ---------------------------------------------------------------------------

/// One ledger operation with its inputs.
pub ghost enum Op {
    Initialize { authority: u64 },
    SetBudget { caller: u64, organization: u64, amount: u64 },
    CreateDepartment { caller: u64, organization: u64, name: Seq<char>, budget_allocation: u64 },
    SchedulePayment {
        caller: u64,
        organization: u64,
        department_name: Seq<char>,
        amount: u64,
        recipient: u64,
        memo: Seq<char>,
        execution_date: i64,
        payment_id: u64,
    },
    ExecutePayment {
        caller: u64,
        organization: u64,
        department_name: Seq<char>,
        payment_id: u64,
        now: i64,
    },
    MarkNotificationRead {
        caller: u64,
        organization: u64,
        department_name: Seq<char>,
        payment_id: u64,
    },
}

/// The bounds the operations put on their text inputs.
pub open spec fn op_input_ok(op: Op) -> bool {
    match op {
        Op::CreateDepartment { name, .. } => name.len() <= MAX_NAME_LEN,
        Op::SchedulePayment { memo, .. } => memo.len() <= MAX_MEMO_LEN,
        _ => true,
    }
}

/// The ledger after one operation, together with the operation's result.
pub open spec fn step(l: LedgerView, op: Op) -> (LedgerView, Result<(), BudgetError>) {
    match op {
        Op::Initialize { authority } => l.initialize(authority),
        Op::SetBudget { caller, organization, amount } => l.set_budget(caller, organization, amount),
        Op::CreateDepartment { caller, organization, name, budget_allocation } => l
            .create_department(caller, organization, name, budget_allocation),
        Op::SchedulePayment {
            caller,
            organization,
            department_name,
            amount,
            recipient,
            memo,
            execution_date,
            payment_id,
        } => l.schedule_payment(
            caller,
            organization,
            department_name,
            amount,
            recipient,
            memo,
            execution_date,
            payment_id,
        ),
        Op::ExecutePayment { caller, organization, department_name, payment_id, now } => l
            .execute_payment(caller, organization, department_name, payment_id, now),
        Op::MarkNotificationRead { caller, organization, department_name, payment_id } => l
            .mark_notification_read(caller, organization, department_name, payment_id),
    }
}

// ---------------------------------------------------------------------------
// Lookup lemmas: under key uniqueness, an index that carries a key is the
// index the lookup functions denote.
// ---------------------------------------------------------------------------

/// An index holding the organization key is the looked-up index.
pub proof fn lemma_org_idx_is(l: LedgerView, organization: u64, i: int)
    requires
        l.orgs_unique(),
        0 <= i < l.organizations.len(),
        l.organizations[i].authority == organization,
    ensures
        l.has_org(organization),
        l.org_idx(organization) == i,
        l.org(organization) == l.organizations[i],
{
    assert(l.has_org(organization));
    let j = l.org_idx(organization);
    assert(0 <= j < l.organizations.len() && l.organizations[j].authority == organization);
    assert(j == i);
}

/// An index holding the department key is the looked-up index.
pub proof fn lemma_dept_idx_is(l: LedgerView, organization: u64, name: Seq<char>, i: int)
    requires
        l.depts_unique(),
        0 <= i < l.departments.len(),
        dept_has_key(l.departments[i], organization, name),
    ensures
        l.has_dept(organization, name),
        l.dept_idx(organization, name) == i,
        l.dept(organization, name) == l.departments[i],
{
    assert(l.has_dept(organization, name));
    let j = l.dept_idx(organization, name);
    assert(0 <= j < l.departments.len() && dept_has_key(l.departments[j], organization, name));
    assert(j == i);
}

/// An index holding the payment key is the looked-up index.
pub proof fn lemma_payment_idx_is(
    l: LedgerView,
    organization: u64,
    name: Seq<char>,
    payment_id: u64,
    i: int,
)
    requires
        l.payments_unique(),
        0 <= i < l.payments.len(),
        payment_has_key(l.payments[i], organization, name, payment_id),
    ensures
        l.has_payment(organization, name, payment_id),
        l.payment_idx(organization, name, payment_id) == i,
        l.payment(organization, name, payment_id) == l.payments[i],
{
    assert(l.has_payment(organization, name, payment_id));
    let j = l.payment_idx(organization, name, payment_id);
    assert(0 <= j < l.payments.len() && payment_has_key(
        l.payments[j],
        organization,
        name,
        payment_id,
    ));
    assert(j == i);
}

/// An index holding the notification's payment key is the looked-up index.
pub proof fn lemma_notification_idx_is(
    l: LedgerView,
    organization: u64,
    name: Seq<char>,
    payment_id: u64,
    i: int,
)
    requires
        l.notifications_unique(),
        0 <= i < l.notifications.len(),
        notification_has_key(l.notifications[i], organization, name, payment_id),
    ensures
        l.has_notification(organization, name, payment_id),
        l.notification_idx(organization, name, payment_id) == i,
        l.notification(organization, name, payment_id) == l.notifications[i],
{
    assert(l.has_notification(organization, name, payment_id));
    let j = l.notification_idx(organization, name, payment_id);
    assert(0 <= j < l.notifications.len() && notification_has_key(
        l.notifications[j],
        organization,
        name,
        payment_id,
    ));
    assert(j == i);
}

} // verus!
