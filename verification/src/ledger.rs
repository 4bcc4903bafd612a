use vstd::prelude::*;
use crate::entities::{
    CreateDepartment, Department, ExecutePayment, Initialize, MarkNotificationRead, Notification,
    Organization, Payment, PaymentStatus, SchedulePayment, SetBudget, MAX_MEMO_LEN, MAX_NAME_LEN,
};
use crate::errors::BudgetError;
use crate::laws::{
    lemma_create_department_wf, lemma_execute_payment_wf, lemma_initialize_wf,
    lemma_mark_notification_read_wf, lemma_schedule_payment_wf, lemma_set_budget_wf,
};
use crate::text::{payment_message, payment_message_string};
use crate::model::{
    dept_has_key, empty_ledger, notification_has_key, payment_has_key, DepartmentView, LedgerView,
    NotificationView, OrganizationView, PaymentView,
};
use crate::model::{
    lemma_dept_idx_is, lemma_notification_idx_is, lemma_org_idx_is, lemma_payment_idx_is,
};

verus! {

/// The keyed store holding every entity of the budget system.
///
/// Each entity is addressed by a deterministic key derived from its parents
/// (see [`LedgerView`]); all operations that read and write the store go
/// through the methods here, each of which behaves exactly as its spec
/// transition on [`LedgerView`].
pub struct Ledger {
    pub organizations: Vec<Organization>,
    pub departments: Vec<Department>,
    pub payments: Vec<Payment>,
    pub notifications: Vec<Notification>,
}

impl View for Ledger {
    type V = LedgerView;

    open spec fn view(&self) -> LedgerView {
        LedgerView {
            organizations: self.organizations@.map_values(|o: Organization| o@),
            departments: self.departments@.map_values(|d: Department| d@),
            payments: self.payments@.map_values(|p: Payment| p@),
            notifications: self.notifications@.map_values(|n: Notification| n@),
        }
    }
}

/// First index in `v` of the department keyed `(organization, name)`.
fn find_dept(v: &Vec<Department>, organization: u64, name: &String) -> (r: Option<usize>)
    ensures
        match r {
            Some(i) => i < v.len() && v@[i as int].authority == organization
                && v@[i as int].name@ == name@,
            None => forall|j: int|
                0 <= j < v@.len() ==> !(v@[j].authority == organization && v@[j].name@ == name@),
        },
{
    let mut i: usize = 0;
    while i < v.len()
        invariant
            i <= v.len(),
            forall|j: int|
                0 <= j < i ==> !(v@[j].authority == organization && v@[j].name@ == name@),
        decreases v.len() - i,
    {
        if v[i].authority == organization && v[i].name == *name {
            return Some(i);
        }
        i = i + 1;
    }
    None
}

/// First index in `v` of the payment keyed `(organization, name, payment_id)`.
fn find_payment(v: &Vec<Payment>, organization: u64, name: &String, payment_id: u64) -> (r: Option<
    usize,
>)
    ensures
        match r {
            Some(i) => i < v.len() && v@[i as int].organization == organization
                && v@[i as int].department_name@ == name@
                && v@[i as int].payment_id == payment_id,
            None => forall|j: int|
                0 <= j < v@.len() ==> !(v@[j].organization == organization
                    && v@[j].department_name@ == name@ && v@[j].payment_id == payment_id),
        },
{
    let mut i: usize = 0;
    while i < v.len()
        invariant
            i <= v.len(),
            forall|j: int|
                0 <= j < i ==> !(v@[j].organization == organization && v@[j].department_name@
                    == name@ && v@[j].payment_id == payment_id),
        decreases v.len() - i,
    {
        if v[i].organization == organization && v[i].payment_id == payment_id && v[i].department_name
            == *name {
            return Some(i);
        }
        i = i + 1;
    }
    None
}

/// First index in `v` of the notification for the payment keyed
/// `(organization, name, payment_id)`.
fn find_notification(
    v: &Vec<Notification>,
    organization: u64,
    name: &String,
    payment_id: u64,
) -> (r: Option<usize>)
    ensures
        match r {
            Some(i) => i < v.len() && v@[i as int].organization == organization
                && v@[i as int].department_name@ == name@
                && v@[i as int].payment_id == payment_id,
            None => forall|j: int|
                0 <= j < v@.len() ==> !(v@[j].organization == organization
                    && v@[j].department_name@ == name@ && v@[j].payment_id == payment_id),
        },
{
    let mut i: usize = 0;
    while i < v.len()
        invariant
            i <= v.len(),
            forall|j: int|
                0 <= j < i ==> !(v@[j].organization == organization && v@[j].department_name@
                    == name@ && v@[j].payment_id == payment_id),
        decreases v.len() - i,
    {
        if v[i].organization == organization && v[i].payment_id == payment_id && v[i].department_name
            == *name {
            return Some(i);
        }
        i = i + 1;
    }
    None
}

/// First index in `v` of the organization keyed by `organization`.
fn find_org(v: &Vec<Organization>, organization: u64) -> (r: Option<usize>)
    ensures
        match r {
            Some(i) => i < v.len() && v@[i as int].authority == organization,
            None => forall|j: int| 0 <= j < v@.len() ==> v@[j].authority != organization,
        },
{
    let mut i: usize = 0;
    while i < v.len()
        invariant
            i <= v.len(),
            forall|j: int| 0 <= j < i ==> v@[j].authority != organization,
        decreases v.len() - i,
    {
        if v[i].authority == organization {
            return Some(i);
        }
        i = i + 1;
    }
    None
}

impl Ledger {
    /// An empty ledger: no entity of any kind stored yet.
    pub fn new() -> (l: Ledger)
        ensures
            l@ == empty_ledger(),
            l@.wf(),
    {
        let l = Ledger {
            organizations: Vec::new(),
            departments: Vec::new(),
            payments: Vec::new(),
            notifications: Vec::new(),
        };
        proof {
            assert(l@ =~= empty_ledger());
        }
        l
    }

    /// Creates the organization owned by the signing authority, keyed by its
    /// identity, with a total budget of zero. Fails with `AlreadyExists` if
    /// that identity already has an organization.
    pub fn initialize(&mut self, ctx: &Initialize) -> (r: Result<(), BudgetError>)
        requires
            old(self)@.wf(),
        ensures
            final(self)@.wf(),
            (final(self)@, r) == old(self)@.initialize(ctx.authority),
    {
        match find_org(&self.organizations, ctx.authority) {
            Some(i) => {
                proof {
                    assert(self@.organizations[i as int] == self.organizations@[i as int]@);
                    assert(self@.has_org(ctx.authority));
                }
                Err(BudgetError::AlreadyExists)
            },
            None => {
                proof {
                    assert forall|j: int| 0 <= j < self@.organizations.len() implies (
                    self@.organizations[j]).authority != ctx.authority by {
                        assert(self@.organizations[j] == self.organizations@[j]@);
                    }
                    assert(!self@.has_org(ctx.authority));
                }
                self.organizations.push(Organization { authority: ctx.authority, total_budget: 0 });
                proof {
                    assert(self@.organizations =~= old(self)@.organizations.push(
                        OrganizationView { authority: ctx.authority, total_budget: 0u64 },
                    ));
                    assert(self@ =~= old(self)@.initialize(ctx.authority).0);
                    lemma_initialize_wf(old(self)@, ctx.authority);
                }
                Ok(())
            },
        }
    }

    /// Overwrites the organization's total budget with `amount` if the caller
    /// is its authority. No floor or ceiling is applied against existing
    /// department allocations.
    pub fn set_budget(&mut self, ctx: &SetBudget, amount: u64) -> (r: Result<(), BudgetError>)
        requires
            old(self)@.wf(),
        ensures
            final(self)@.wf(),
            (final(self)@, r) == old(self)@.set_budget(ctx.authority, ctx.organization, amount),
    {
        let oi = match find_org(&self.organizations, ctx.organization) {
            None => {
                proof {
                    assert forall|j: int| 0 <= j < self@.organizations.len() implies (
                    self@.organizations[j]).authority != ctx.organization by {
                        assert(self@.organizations[j] == self.organizations@[j]@);
                    }
                    assert(!self@.has_org(ctx.organization));
                }
                return Err(BudgetError::NotFound);
            },
            Some(i) => i,
        };
        proof {
            assert(self@.organizations[oi as int] == self.organizations@[oi as int]@);
            lemma_org_idx_is(self@, ctx.organization, oi as int);
        }
        if ctx.authority != self.organizations[oi].authority {
            return Err(BudgetError::Unauthorized);
        }
        let updated = Organization {
            authority: self.organizations[oi].authority,
            total_budget: amount,
        };
        self.organizations.set(oi, updated);
        proof {
            assert(self@.organizations =~= old(self)@.organizations.update(
                oi as int,
                (OrganizationView {
                    authority: old(self)@.org(ctx.organization).authority,
                    total_budget: amount,
                }),
            ));
            assert(self@ =~= old(self)@.set_budget(ctx.authority, ctx.organization, amount).0);
            lemma_set_budget_wf(old(self)@, ctx.authority, ctx.organization, amount);
        }
        Ok(())
    }

    /// Creates a department named `name` under the organization, with the
    /// given allocation and nothing used yet. The allocation must fit within
    /// the organization's total budget as it stands at this call; the check
    /// neither reserves nor subtracts anything, so sibling departments are
    /// not re-validated.
    pub fn create_department(
        &mut self,
        ctx: &CreateDepartment,
        name: String,
        budget_allocation: u64,
    ) -> (r: Result<(), BudgetError>)
        requires
            old(self)@.wf(),
            name@.len() <= MAX_NAME_LEN,
        ensures
            final(self)@.wf(),
            (final(self)@, r) == old(self)@.create_department(
                ctx.authority,
                ctx.organization,
                name@,
                budget_allocation,
            ),
            r is Ok ==> budget_allocation <= old(self)@.org(ctx.organization).total_budget,
    {
        let oi = match find_org(&self.organizations, ctx.organization) {
            None => {
                proof {
                    assert forall|j: int| 0 <= j < self@.organizations.len() implies (
                    self@.organizations[j]).authority != ctx.organization by {
                        assert(self@.organizations[j] == self.organizations@[j]@);
                    }
                    assert(!self@.has_org(ctx.organization));
                }
                return Err(BudgetError::NotFound);
            },
            Some(i) => i,
        };
        proof {
            assert(self@.organizations[oi as int] == self.organizations@[oi as int]@);
            lemma_org_idx_is(self@, ctx.organization, oi as int);
        }
        if ctx.authority != self.organizations[oi].authority {
            return Err(BudgetError::Unauthorized);
        }
        if budget_allocation > self.organizations[oi].total_budget {
            return Err(BudgetError::InsufficientBudget);
        }
        match find_dept(&self.departments, ctx.organization, &name) {
            Some(di) => {
                proof {
                    assert(self@.departments[di as int] == self.departments@[di as int]@);
                    assert(dept_has_key(self@.departments[di as int], ctx.organization, name@));
                    assert(self@.has_dept(ctx.organization, name@));
                }
                Err(BudgetError::AlreadyExists)
            },
            None => {
                proof {
                    assert forall|j: int| 0 <= j < self@.departments.len() implies !dept_has_key(
                        self@.departments[j],
                        ctx.organization,
                        name@,
                    ) by {
                        assert(self@.departments[j] == self.departments@[j]@);
                    }
                    assert(!self@.has_dept(ctx.organization, name@));
                }
                let ghost nv = name@;
                self.departments.push(
                    Department {
                        name,
                        budget_allocation,
                        budget_used: 0,
                        authority: ctx.organization,
                    },
                );
                proof {
                    assert(self@.departments =~= old(self)@.departments.push(
                        (DepartmentView {
                            name: nv,
                            budget_allocation: budget_allocation,
                            budget_used: 0u64,
                            authority: ctx.organization,
                        }),
                    ));
                    assert(self@ =~= old(self)@.create_department(
                        ctx.authority,
                        ctx.organization,
                        nv,
                        budget_allocation,
                    ).0);
                    lemma_create_department_wf(
                        old(self)@,
                        ctx.authority,
                        ctx.organization,
                        nv,
                        budget_allocation,
                    );
                }
                Ok(())
            },
        }
    }

    /// Schedules a payment of `amount` to `recipient` against the department,
    /// to become due at `execution_date`. The check against the department's
    /// remaining allocation uses `budget_used` as it stands now; nothing is
    /// debited until the payment is executed.
    pub fn schedule_payment(
        &mut self,
        ctx: &SchedulePayment,
        amount: u64,
        recipient: u64,
        memo: String,
        execution_date: i64,
        payment_id: u64,
    ) -> (r: Result<(), BudgetError>)
        requires
            old(self)@.wf(),
            memo@.len() <= MAX_MEMO_LEN,
        ensures
            final(self)@.wf(),
            (final(self)@, r) == old(self)@.schedule_payment(
                ctx.authority,
                ctx.organization,
                ctx.department_name@,
                amount,
                recipient,
                memo@,
                execution_date,
                payment_id,
            ),
    {
        let oi = match find_org(&self.organizations, ctx.organization) {
            None => {
                proof {
                    assert forall|j: int| 0 <= j < self@.organizations.len() implies (
                    self@.organizations[j]).authority != ctx.organization by {
                        assert(self@.organizations[j] == self.organizations@[j]@);
                    }
                    assert(!self@.has_org(ctx.organization));
                }
                return Err(BudgetError::NotFound);
            },
            Some(i) => i,
        };
        proof {
            assert(self@.organizations[oi as int] == self.organizations@[oi as int]@);
            lemma_org_idx_is(self@, ctx.organization, oi as int);
        }
        if ctx.authority != self.organizations[oi].authority {
            return Err(BudgetError::Unauthorized);
        }
        let di = match find_dept(&self.departments, ctx.organization, &ctx.department_name) {
            None => {
                proof {
                    assert forall|j: int| 0 <= j < self@.departments.len() implies !dept_has_key(
                        self@.departments[j],
                        ctx.organization,
                        ctx.department_name@,
                    ) by {
                        assert(self@.departments[j] == self.departments@[j]@);
                    }
                    assert(!self@.has_dept(ctx.organization, ctx.department_name@));
                }
                return Err(BudgetError::NotFound);
            },
            Some(i) => i,
        };
        proof {
            assert(self@.departments[di as int] == self.departments@[di as int]@);
            lemma_dept_idx_is(self@, ctx.organization, ctx.department_name@, di as int);
        }
        let du = self.departments[di].budget_used;
        let alloc = self.departments[di].budget_allocation;
        if du > alloc || amount > alloc - du {
            return Err(BudgetError::DepartmentBudgetExceeded);
        }
        match find_payment(&self.payments, ctx.organization, &ctx.department_name, payment_id) {
            Some(pi) => {
                proof {
                    assert(self@.payments[pi as int] == self.payments@[pi as int]@);
                    assert(payment_has_key(
                        self@.payments[pi as int],
                        ctx.organization,
                        ctx.department_name@,
                        payment_id,
                    ));
                    assert(self@.has_payment(ctx.organization, ctx.department_name@, payment_id));
                }
                Err(BudgetError::AlreadyExists)
            },
            None => {
                proof {
                    assert forall|j: int| 0 <= j < self@.payments.len() implies !payment_has_key(
                        self@.payments[j],
                        ctx.organization,
                        ctx.department_name@,
                        payment_id,
                    ) by {
                        assert(self@.payments[j] == self.payments@[j]@);
                    }
                    assert(!self@.has_payment(ctx.organization, ctx.department_name@, payment_id));
                }
                let ghost mv = memo@;
                self.payments.push(
                    Payment {
                        amount,
                        recipient,
                        organization: ctx.organization,
                        department_name: ctx.department_name.clone(),
                        memo,
                        execution_date,
                        status: PaymentStatus::Scheduled,
                        payment_id,
                    },
                );
                proof {
                    assert(self@.payments =~= old(self)@.payments.push(
                        (PaymentView {
                            amount: amount,
                            recipient: recipient,
                            organization: ctx.organization,
                            department_name: ctx.department_name@,
                            memo: mv,
                            execution_date: execution_date,
                            status: PaymentStatus::Scheduled,
                            payment_id: payment_id,
                        }),
                    ));
                    assert(self@ =~= old(self)@.schedule_payment(
                        ctx.authority,
                        ctx.organization,
                        ctx.department_name@,
                        amount,
                        recipient,
                        mv,
                        execution_date,
                        payment_id,
                    ).0);
                    lemma_schedule_payment_wf(
                        old(self)@,
                        ctx.authority,
                        ctx.organization,
                        ctx.department_name@,
                        amount,
                        recipient,
                        mv,
                        execution_date,
                        payment_id,
                    );
                }
                Ok(())
            },
        }
    }

    /// Executes a scheduled payment that has come due: marks it `Executed`,
    /// debits its department's `budget_used` by exactly the payment's amount,
    /// and records the payment's one notification, unread and timestamped
    /// `now`. The caller supplies `now`, the current time in epoch seconds.
    /// On any failing check nothing at all is mutated.
    pub fn execute_payment(&mut self, ctx: &ExecutePayment, now: i64) -> (r: Result<
        (),
        BudgetError,
    >)
        requires
            old(self)@.wf(),
        ensures
            final(self)@.wf(),
            (final(self)@, r) == old(self)@.execute_payment(
                ctx.authority,
                ctx.organization,
                ctx.department_name@,
                ctx.payment_id,
                now,
            ),
    {
        let ghost lv = self@;
        let oi = match find_org(&self.organizations, ctx.organization) {
            None => {
                proof {
                    assert forall|j: int| 0 <= j < self@.organizations.len() implies (
                    self@.organizations[j]).authority != ctx.organization by {
                        assert(self@.organizations[j] == self.organizations@[j]@);
                    }
                    assert(!self@.has_org(ctx.organization));
                }
                return Err(BudgetError::NotFound);
            },
            Some(i) => i,
        };
        proof {
            assert(self@.organizations[oi as int] == self.organizations@[oi as int]@);
            lemma_org_idx_is(self@, ctx.organization, oi as int);
        }
        if ctx.authority != self.organizations[oi].authority {
            return Err(BudgetError::Unauthorized);
        }
        let di = match find_dept(&self.departments, ctx.organization, &ctx.department_name) {
            None => {
                proof {
                    assert forall|j: int| 0 <= j < self@.departments.len() implies !dept_has_key(
                        self@.departments[j],
                        ctx.organization,
                        ctx.department_name@,
                    ) by {
                        assert(self@.departments[j] == self.departments@[j]@);
                    }
                    assert(!self@.has_dept(ctx.organization, ctx.department_name@));
                }
                return Err(BudgetError::NotFound);
            },
            Some(i) => i,
        };
        proof {
            assert(self@.departments[di as int] == self.departments@[di as int]@);
            lemma_dept_idx_is(self@, ctx.organization, ctx.department_name@, di as int);
        }
        let pi = match find_payment(
            &self.payments,
            ctx.organization,
            &ctx.department_name,
            ctx.payment_id,
        ) {
            None => {
                proof {
                    assert forall|j: int| 0 <= j < self@.payments.len() implies !payment_has_key(
                        self@.payments[j],
                        ctx.organization,
                        ctx.department_name@,
                        ctx.payment_id,
                    ) by {
                        assert(self@.payments[j] == self.payments@[j]@);
                    }
                    assert(!self@.has_payment(
                        ctx.organization,
                        ctx.department_name@,
                        ctx.payment_id,
                    ));
                }
                return Err(BudgetError::NotFound);
            },
            Some(i) => i,
        };
        proof {
            assert(self@.payments[pi as int] == self.payments@[pi as int]@);
            lemma_payment_idx_is(
                self@,
                ctx.organization,
                ctx.department_name@,
                ctx.payment_id,
                pi as int,
            );
        }
        match self.payments[pi].status {
            PaymentStatus::Scheduled => {},
            _ => {
                return Err(BudgetError::InvalidPaymentStatus);
            },
        }
        if now < self.payments[pi].execution_date {
            return Err(BudgetError::PaymentNotDue);
        }
        let p_amount = self.payments[pi].amount;
        let p_recipient = self.payments[pi].recipient;
        let du = self.departments[di].budget_used;
        if p_amount > u64::MAX - du {
            return Err(BudgetError::InvalidAmount);
        }
        let updated_payment = Payment {
            amount: p_amount,
            recipient: p_recipient,
            organization: self.payments[pi].organization,
            department_name: self.payments[pi].department_name.clone(),
            memo: self.payments[pi].memo.clone(),
            execution_date: self.payments[pi].execution_date,
            status: PaymentStatus::Executed,
            payment_id: self.payments[pi].payment_id,
        };
        self.payments.set(pi, updated_payment);
        let updated_dept = Department {
            name: self.departments[di].name.clone(),
            budget_allocation: self.departments[di].budget_allocation,
            budget_used: du + p_amount,
            authority: self.departments[di].authority,
        };
        self.departments.set(di, updated_dept);
        let message = payment_message_string(p_amount, p_recipient);
        self.notifications.push(
            Notification {
                organization: ctx.organization,
                department_name: ctx.department_name.clone(),
                payment_id: ctx.payment_id,
                message,
                timestamp: now,
                is_read: false,
            },
        );
        proof {
            let pv = lv.payment(ctx.organization, ctx.department_name@, ctx.payment_id);
            let dv = lv.dept(ctx.organization, ctx.department_name@);
            assert(self@.payments =~= lv.payments.update(
                pi as int,
                (PaymentView { status: PaymentStatus::Executed, ..pv }),
            ));
            assert(self@.departments =~= lv.departments.update(
                di as int,
                (DepartmentView { budget_used: (dv.budget_used + pv.amount) as u64, ..dv }),
            ));
            assert(self@.notifications =~= lv.notifications.push(
                (NotificationView {
                    organization: ctx.organization,
                    department_name: ctx.department_name@,
                    payment_id: ctx.payment_id,
                    message: payment_message(pv.amount, pv.recipient),
                    timestamp: now,
                    is_read: false,
                }),
            ));
            assert(self@ =~= lv.execute_payment(
                ctx.authority,
                ctx.organization,
                ctx.department_name@,
                ctx.payment_id,
                now,
            ).0);
            lemma_execute_payment_wf(
                lv,
                ctx.authority,
                ctx.organization,
                ctx.department_name@,
                ctx.payment_id,
                now,
            );
        }
        Ok(())
    }

    /// Marks the notification of the given payment as read. Setting the flag
    /// again is a no-op, not an error. The caller is a verified signer but is
    /// not compared against the organization's authority.
    pub fn mark_notification_read(&mut self, ctx: &MarkNotificationRead) -> (r: Result<
        (),
        BudgetError,
    >)
        requires
            old(self)@.wf(),
        ensures
            final(self)@.wf(),
            (final(self)@, r) == old(self)@.mark_notification_read(
                ctx.authority,
                ctx.organization,
                ctx.department_name@,
                ctx.payment_id,
            ),
    {
        let ni = match find_notification(
            &self.notifications,
            ctx.organization,
            &ctx.department_name,
            ctx.payment_id,
        ) {
            None => {
                proof {
                    assert forall|j: int| 0 <= j < self@.notifications.len() implies !notification_has_key(
                        self@.notifications[j],
                        ctx.organization,
                        ctx.department_name@,
                        ctx.payment_id,
                    ) by {
                        assert(self@.notifications[j] == self.notifications@[j]@);
                    }
                    assert(!self@.has_notification(
                        ctx.organization,
                        ctx.department_name@,
                        ctx.payment_id,
                    ));
                }
                return Err(BudgetError::NotFound);
            },
            Some(i) => i,
        };
        proof {
            assert(self@.notifications[ni as int] == self.notifications@[ni as int]@);
            lemma_notification_idx_is(
                self@,
                ctx.organization,
                ctx.department_name@,
                ctx.payment_id,
                ni as int,
            );
        }
        let updated = Notification {
            organization: self.notifications[ni].organization,
            department_name: self.notifications[ni].department_name.clone(),
            payment_id: self.notifications[ni].payment_id,
            message: self.notifications[ni].message.clone(),
            timestamp: self.notifications[ni].timestamp,
            is_read: true,
        };
        self.notifications.set(ni, updated);
        proof {
            assert(self@.notifications =~= old(self)@.notifications.update(
                ni as int,
                (NotificationView {
                    is_read: true,
                    ..old(self)@.notification(ctx.organization, ctx.department_name@, ctx.payment_id)
                }),
            ));
            assert(self@ =~= old(self)@.mark_notification_read(
                ctx.authority,
                ctx.organization,
                ctx.department_name@,
                ctx.payment_id,
            ).0);
            lemma_mark_notification_read_wf(
                old(self)@,
                ctx.authority,
                ctx.organization,
                ctx.department_name@,
                ctx.payment_id,
            );
        }
        Ok(())
    }

    /// The organization keyed by `organization`, if it exists.
    pub fn get_organization(&self, organization: u64) -> (r: Option<&Organization>)
        requires
            self@.wf(),
        ensures
            match r {
                Some(o) => self@.has_org(organization) && o@ == self@.org(organization),
                None => !self@.has_org(organization),
            },
    {
        match find_org(&self.organizations, organization) {
            Some(i) => {
                proof {
                    assert(self@.organizations[i as int] == self.organizations@[i as int]@);
                    lemma_org_idx_is(self@, organization, i as int);
                }
                Some(&self.organizations[i])
            },
            None => {
                proof {
                    assert forall|j: int| 0 <= j < self@.organizations.len() implies (
                    self@.organizations[j]).authority != organization by {
                        assert(self@.organizations[j] == self.organizations@[j]@);
                    }
                }
                None
            },
        }
    }

    /// The department keyed `(organization, name)`, if it exists.
    pub fn get_department(&self, organization: u64, name: &String) -> (r: Option<&Department>)
        requires
            self@.wf(),
        ensures
            match r {
                Some(d) => self@.has_dept(organization, name@) && d@ == self@.dept(
                    organization,
                    name@,
                ),
                None => !self@.has_dept(organization, name@),
            },
    {
        match find_dept(&self.departments, organization, name) {
            Some(i) => {
                proof {
                    assert(self@.departments[i as int] == self.departments@[i as int]@);
                    lemma_dept_idx_is(self@, organization, name@, i as int);
                }
                Some(&self.departments[i])
            },
            None => {
                proof {
                    assert forall|j: int| 0 <= j < self@.departments.len() implies !dept_has_key(
                        self@.departments[j],
                        organization,
                        name@,
                    ) by {
                        assert(self@.departments[j] == self.departments@[j]@);
                    }
                }
                None
            },
        }
    }

    /// The payment keyed `(organization, name, payment_id)`, if it exists.
    pub fn get_payment(&self, organization: u64, name: &String, payment_id: u64) -> (r: Option<
        &Payment,
    >)
        requires
            self@.wf(),
        ensures
            match r {
                Some(p) => self@.has_payment(organization, name@, payment_id) && p@ == self@.payment(
                    organization,
                    name@,
                    payment_id,
                ),
                None => !self@.has_payment(organization, name@, payment_id),
            },
    {
        match find_payment(&self.payments, organization, name, payment_id) {
            Some(i) => {
                proof {
                    assert(self@.payments[i as int] == self.payments@[i as int]@);
                    lemma_payment_idx_is(self@, organization, name@, payment_id, i as int);
                }
                Some(&self.payments[i])
            },
            None => {
                proof {
                    assert forall|j: int| 0 <= j < self@.payments.len() implies !payment_has_key(
                        self@.payments[j],
                        organization,
                        name@,
                        payment_id,
                    ) by {
                        assert(self@.payments[j] == self.payments@[j]@);
                    }
                }
                None
            },
        }
    }

    /// The notification of the payment keyed `(organization, name, payment_id)`,
    /// if it exists.
    pub fn get_notification(&self, organization: u64, name: &String, payment_id: u64) -> (r: Option<
        &Notification,
    >)
        requires
            self@.wf(),
        ensures
            match r {
                Some(n) => self@.has_notification(organization, name@, payment_id) && n@
                    == self@.notification(organization, name@, payment_id),
                None => !self@.has_notification(organization, name@, payment_id),
            },
    {
        match find_notification(&self.notifications, organization, name, payment_id) {
            Some(i) => {
                proof {
                    assert(self@.notifications[i as int] == self.notifications@[i as int]@);
                    lemma_notification_idx_is(self@, organization, name@, payment_id, i as int);
                }
                Some(&self.notifications[i])
            },
            None => {
                proof {
                    assert forall|j: int| 0 <= j < self@.notifications.len() implies !notification_has_key(
                        self@.notifications[j],
                        organization,
                        name@,
                        payment_id,
                    ) by {
                        assert(self@.notifications[j] == self.notifications@[j]@);
                    }
                }
                None
            },
        }
    }
}

} // verus!
