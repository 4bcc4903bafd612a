use vstd::prelude::*;
use crate::entities::{MAX_MEMO_LEN, MAX_NAME_LEN};
use crate::errors::BudgetError;
use crate::model::{
    dept_has_key, has_dept_in, has_org_in, has_payment_in, lemma_dept_idx_is,
    lemma_notification_idx_is, lemma_payment_idx_is, notification_has_key, payment_has_key,
    payment_idx_in, step, LedgerView, NotificationView, Op,
};

verus! {

/// `initialize` preserves the ledger invariant.
pub proof fn lemma_initialize_wf(l: LedgerView, authority: u64)
    requires
        l.wf(),
    ensures
        l.initialize(authority).0.wf(),
{
    if !l.has_org(authority) {
        let l2 = l.initialize(authority).0;
        assert forall|i: int, j: int|
            0 <= i < l2.organizations.len() && 0 <= j < l2.organizations.len() && i
                != j implies (#[trigger] l2.organizations[i]).authority
            != (#[trigger] l2.organizations[j]).authority by {
            if i < l.organizations.len() && j < l.organizations.len() {
                assert(l2.organizations[i] == l.organizations[i]);
                assert(l2.organizations[j] == l.organizations[j]);
            } else if j == l.organizations.len() {
                assert(l2.organizations[i] == l.organizations[i]);
                assert(l.organizations[i].authority != authority);
            } else {
                assert(l2.organizations[j] == l.organizations[j]);
                assert(l.organizations[j].authority != authority);
            }
        }
        assert forall|i: int| 0 <= i < l2.departments.len() implies has_org_in(
            l2.organizations,
            (#[trigger] l2.departments[i]).authority,
        ) by {
            assert(has_org_in(l.organizations, l.departments[i].authority));
            let w = choose|w: int|
                0 <= w < l.organizations.len() && (#[trigger] l.organizations[w]).authority
                    == l.departments[i].authority;
            assert(l2.organizations[w] == l.organizations[w]);
        }
    }
}

/// `set_budget` preserves the ledger invariant.
pub proof fn lemma_set_budget_wf(l: LedgerView, caller: u64, organization: u64, amount: u64)
    requires
        l.wf(),
    ensures
        l.set_budget(caller, organization, amount).0.wf(),
{
    if l.has_org(organization) && caller == l.org(organization).authority {
        let l2 = l.set_budget(caller, organization, amount).0;
        let oi = l.org_idx(organization);
        assert(0 <= oi < l.organizations.len() && l.organizations[oi].authority == organization);
        assert forall|i: int| 0 <= i < l2.organizations.len() implies (
        #[trigger] l2.organizations[i]).authority == l.organizations[i].authority by {
            if i != oi {
                assert(l2.organizations[i] == l.organizations[i]);
            }
        }
        assert forall|i: int, j: int|
            0 <= i < l2.organizations.len() && 0 <= j < l2.organizations.len() && i
                != j implies (#[trigger] l2.organizations[i]).authority
            != (#[trigger] l2.organizations[j]).authority by {
            assert(l2.organizations[i].authority == l.organizations[i].authority);
            assert(l2.organizations[j].authority == l.organizations[j].authority);
        }
        assert forall|i: int| 0 <= i < l2.departments.len() implies has_org_in(
            l2.organizations,
            (#[trigger] l2.departments[i]).authority,
        ) by {
            assert(has_org_in(l.organizations, l.departments[i].authority));
            let w = choose|w: int|
                0 <= w < l.organizations.len() && (#[trigger] l.organizations[w]).authority
                    == l.departments[i].authority;
            assert(l2.organizations[w].authority == l.organizations[w].authority);
        }
    }
}

/// `create_department` preserves the ledger invariant.
pub proof fn lemma_create_department_wf(
    l: LedgerView,
    caller: u64,
    organization: u64,
    name: Seq<char>,
    budget_allocation: u64,
)
    requires
        l.wf(),
        name.len() <= MAX_NAME_LEN,
    ensures
        l.create_department(caller, organization, name, budget_allocation).0.wf(),
{
    let (l2, r) = l.create_department(caller, organization, name, budget_allocation);
    if r is Ok {
        assert(!l.has_dept(organization, name));
        assert forall|i: int, j: int|
            0 <= i < l2.departments.len() && 0 <= j < l2.departments.len() && i
                != j implies !dept_has_key(
            #[trigger] l2.departments[i],
            (#[trigger] l2.departments[j]).authority,
            l2.departments[j].name,
        ) by {
            if i < l.departments.len() && j < l.departments.len() {
                assert(l2.departments[i] == l.departments[i]);
                assert(l2.departments[j] == l.departments[j]);
            } else if j == l.departments.len() {
                assert(l2.departments[i] == l.departments[i]);
                assert(!dept_has_key(l.departments[i], organization, name));
            } else {
                assert(l2.departments[j] == l.departments[j]);
                assert(!dept_has_key(l.departments[j], organization, name));
            }
        }
        assert forall|i: int| 0 <= i < l2.departments.len() implies has_org_in(
            l2.organizations,
            (#[trigger] l2.departments[i]).authority,
        ) by {
            if i < l.departments.len() {
                assert(l2.departments[i] == l.departments[i]);
                assert(has_org_in(l.organizations, l.departments[i].authority));
            } else {
                assert(l2.departments[i].authority == organization);
                assert(l.has_org(organization));
            }
        }
        assert forall|i: int| 0 <= i < l2.payments.len() implies has_dept_in(
            l2.departments,
            (#[trigger] l2.payments[i]).organization,
            l2.payments[i].department_name,
        ) by {
            assert(has_dept_in(l.departments, l.payments[i].organization, l.payments[i].department_name));
            let w = choose|w: int|
                0 <= w < l.departments.len() && dept_has_key(
                    #[trigger] l.departments[w],
                    l.payments[i].organization,
                    l.payments[i].department_name,
                );
            assert(l2.departments[w] == l.departments[w]);
        }
        assert forall|i: int| 0 <= i < l2.departments.len() implies (
        #[trigger] l2.departments[i]).name.len() <= MAX_NAME_LEN by {
            if i < l.departments.len() {
                assert(l2.departments[i] == l.departments[i]);
            }
        }
    }
}

/// `schedule_payment` preserves the ledger invariant.
pub proof fn lemma_schedule_payment_wf(
    l: LedgerView,
    caller: u64,
    organization: u64,
    department_name: Seq<char>,
    amount: u64,
    recipient: u64,
    memo: Seq<char>,
    execution_date: i64,
    payment_id: u64,
)
    requires
        l.wf(),
        memo.len() <= MAX_MEMO_LEN,
    ensures
        l.schedule_payment(
            caller,
            organization,
            department_name,
            amount,
            recipient,
            memo,
            execution_date,
            payment_id,
        ).0.wf(),
{
    let (l2, r) = l.schedule_payment(
        caller,
        organization,
        department_name,
        amount,
        recipient,
        memo,
        execution_date,
        payment_id,
    );
    if r is Ok {
        assert(!l.has_payment(organization, department_name, payment_id));
        assert forall|i: int, j: int|
            0 <= i < l2.payments.len() && 0 <= j < l2.payments.len() && i != j implies !payment_has_key(
            #[trigger] l2.payments[i],
            (#[trigger] l2.payments[j]).organization,
            l2.payments[j].department_name,
            l2.payments[j].payment_id,
        ) by {
            if i < l.payments.len() && j < l.payments.len() {
                assert(l2.payments[i] == l.payments[i]);
                assert(l2.payments[j] == l.payments[j]);
            } else if j == l.payments.len() {
                assert(l2.payments[i] == l.payments[i]);
                assert(!payment_has_key(l.payments[i], organization, department_name, payment_id));
            } else {
                assert(l2.payments[j] == l.payments[j]);
                assert(!payment_has_key(l.payments[j], organization, department_name, payment_id));
            }
        }
        assert forall|i: int| 0 <= i < l2.payments.len() implies has_dept_in(
            l2.departments,
            (#[trigger] l2.payments[i]).organization,
            l2.payments[i].department_name,
        ) by {
            if i < l.payments.len() {
                assert(l2.payments[i] == l.payments[i]);
                assert(has_dept_in(
                    l.departments,
                    l.payments[i].organization,
                    l.payments[i].department_name,
                ));
            } else {
                assert(l.has_dept(organization, department_name));
            }
        }
        assert forall|i: int| 0 <= i < l2.notifications.len() implies {
            let n = #[trigger] l2.notifications[i];
            has_payment_in(l2.payments, n.organization, n.department_name, n.payment_id)
                && l2.payments[payment_idx_in(
                l2.payments,
                n.organization,
                n.department_name,
                n.payment_id,
            )].status is Executed
        } by {
            let n = l2.notifications[i];
            assert(n == l.notifications[i]);
            let w = payment_idx_in(l.payments, n.organization, n.department_name, n.payment_id);
            assert(has_payment_in(l.payments, n.organization, n.department_name, n.payment_id));
            assert(0 <= w < l.payments.len() && payment_has_key(
                l.payments[w],
                n.organization,
                n.department_name,
                n.payment_id,
            ));
            assert(l2.payments[w] == l.payments[w]);
            lemma_payment_idx_is(l2, n.organization, n.department_name, n.payment_id, w);
        }
        assert forall|i: int| 0 <= i < l2.payments.len() implies (
        #[trigger] l2.payments[i]).memo.len() <= MAX_MEMO_LEN by {
            if i < l.payments.len() {
                assert(l2.payments[i] == l.payments[i]);
            }
        }
    }
}

/// `execute_payment` preserves the ledger invariant.
#[verifier::rlimit(30)]
pub proof fn lemma_execute_payment_wf(
    l: LedgerView,
    caller: u64,
    organization: u64,
    department_name: Seq<char>,
    payment_id: u64,
    now: i64,
)
    requires
        l.wf(),
    ensures
        l.execute_payment(caller, organization, department_name, payment_id, now).0.wf(),
{
    let (l2, r) = l.execute_payment(caller, organization, department_name, payment_id, now);
    if r is Ok {
        let pi = l.payment_idx(organization, department_name, payment_id);
        let di = l.dept_idx(organization, department_name);
        assert(l.has_payment(organization, department_name, payment_id));
        assert(0 <= pi < l.payments.len() && payment_has_key(
            l.payments[pi],
            organization,
            department_name,
            payment_id,
        ));
        assert(l.has_dept(organization, department_name));
        assert(0 <= di < l.departments.len() && dept_has_key(
            l.departments[di],
            organization,
            department_name,
        ));
        assert(l.payments[pi].status is Scheduled);
        // Payments keep their keys and memos; only the status at `pi` changes.
        assert forall|i: int| 0 <= i < l2.payments.len() implies {
            let p2 = #[trigger] l2.payments[i];
            let p1 = l.payments[i];
            p2.organization == p1.organization && p2.department_name == p1.department_name
                && p2.payment_id == p1.payment_id && p2.memo == p1.memo
        } by {
            if i != pi {
                assert(l2.payments[i] == l.payments[i]);
            }
        }
        assert forall|i: int, j: int|
            0 <= i < l2.payments.len() && 0 <= j < l2.payments.len() && i != j implies !payment_has_key(
            #[trigger] l2.payments[i],
            (#[trigger] l2.payments[j]).organization,
            l2.payments[j].department_name,
            l2.payments[j].payment_id,
        ) by {
            assert(!payment_has_key(
                l.payments[i],
                l.payments[j].organization,
                l.payments[j].department_name,
                l.payments[j].payment_id,
            ));
        }
        // Departments keep their keys, names and allocations; only the usage
        // at `di` changes.
        assert forall|i: int| 0 <= i < l2.departments.len() implies {
            let d2 = #[trigger] l2.departments[i];
            let d1 = l.departments[i];
            d2.authority == d1.authority && d2.name == d1.name
        } by {
            if i != di {
                assert(l2.departments[i] == l.departments[i]);
            }
        }
        assert forall|i: int, j: int|
            0 <= i < l2.departments.len() && 0 <= j < l2.departments.len() && i
                != j implies !dept_has_key(
            #[trigger] l2.departments[i],
            (#[trigger] l2.departments[j]).authority,
            l2.departments[j].name,
        ) by {
            assert(!dept_has_key(
                l.departments[i],
                l.departments[j].authority,
                l.departments[j].name,
            ));
        }
        assert forall|i: int| 0 <= i < l2.departments.len() implies has_org_in(
            l2.organizations,
            (#[trigger] l2.departments[i]).authority,
        ) by {
            assert(l2.departments[i].authority == l.departments[i].authority);
            assert(has_org_in(l.organizations, l.departments[i].authority));
        }
        assert forall|i: int| 0 <= i < l2.payments.len() implies has_dept_in(
            l2.departments,
            (#[trigger] l2.payments[i]).organization,
            l2.payments[i].department_name,
        ) by {
            assert(has_dept_in(
                l.departments,
                l.payments[i].organization,
                l.payments[i].department_name,
            ));
            let w = choose|w: int|
                0 <= w < l.departments.len() && dept_has_key(
                    #[trigger] l.departments[w],
                    l.payments[i].organization,
                    l.payments[i].department_name,
                );
            assert(l2.departments[w].authority == l.departments[w].authority
                && l2.departments[w].name == l.departments[w].name);
            assert(dept_has_key(
                l2.departments[w],
                l2.payments[i].organization,
                l2.payments[i].department_name,
            ));
        }
        // No notification referenced this payment yet: a referenced payment is
        // executed, and this one was still scheduled.
        assert forall|j: int| 0 <= j < l.notifications.len() implies !notification_has_key(
            #[trigger] l.notifications[j],
            organization,
            department_name,
            payment_id,
        ) by {
            if notification_has_key(l.notifications[j], organization, department_name, payment_id) {
                let n = l.notifications[j];
                let w = payment_idx_in(l.payments, n.organization, n.department_name, n.payment_id);
                assert(has_payment_in(l.payments, n.organization, n.department_name, n.payment_id));
                assert(0 <= w < l.payments.len() && payment_has_key(
                    l.payments[w],
                    n.organization,
                    n.department_name,
                    n.payment_id,
                ));
                assert(l.payments[w].status is Executed);
                assert(payment_has_key(l.payments[w], organization, department_name, payment_id));
                assert(w == pi);
                assert(false);
            }
        }
        assert forall|i: int, j: int|
            0 <= i < l2.notifications.len() && 0 <= j < l2.notifications.len() && i
                != j implies !notification_has_key(
            #[trigger] l2.notifications[i],
            (#[trigger] l2.notifications[j]).organization,
            l2.notifications[j].department_name,
            l2.notifications[j].payment_id,
        ) by {
            if i < l.notifications.len() && j < l.notifications.len() {
                assert(l2.notifications[i] == l.notifications[i]);
                assert(l2.notifications[j] == l.notifications[j]);
            } else if j == l.notifications.len() {
                assert(l2.notifications[i] == l.notifications[i]);
                assert(!notification_has_key(
                    l.notifications[i],
                    organization,
                    department_name,
                    payment_id,
                ));
            } else {
                assert(l2.notifications[j] == l.notifications[j]);
                assert(!notification_has_key(
                    l.notifications[j],
                    organization,
                    department_name,
                    payment_id,
                ));
            }
        }
        // Every notification still points at an executed payment.
        assert(l2.payments[pi].status is Executed);
        assert(payment_has_key(l2.payments[pi], organization, department_name, payment_id));
        assert forall|i: int| 0 <= i < l2.notifications.len() implies {
            let n = #[trigger] l2.notifications[i];
            has_payment_in(l2.payments, n.organization, n.department_name, n.payment_id)
                && l2.payments[payment_idx_in(
                l2.payments,
                n.organization,
                n.department_name,
                n.payment_id,
            )].status is Executed
        } by {
            if i < l.notifications.len() {
                let n = l.notifications[i];
                assert(l2.notifications[i] == n);
                let w = payment_idx_in(l.payments, n.organization, n.department_name, n.payment_id);
                assert(has_payment_in(l.payments, n.organization, n.department_name, n.payment_id));
                assert(0 <= w < l.payments.len() && payment_has_key(
                    l.payments[w],
                    n.organization,
                    n.department_name,
                    n.payment_id,
                ));
                assert(l.payments[w].status is Executed);
                assert(w != pi);
                assert(l2.payments[w] == l.payments[w]);
                lemma_payment_idx_is(l2, n.organization, n.department_name, n.payment_id, w);
            } else {
                lemma_payment_idx_is(l2, organization, department_name, payment_id, pi);
            }
        }
        assert forall|i: int| 0 <= i < l2.departments.len() implies (
        #[trigger] l2.departments[i]).name.len() <= MAX_NAME_LEN by {
            assert(l2.departments[i].name == l.departments[i].name);
        }
        assert forall|i: int| 0 <= i < l2.payments.len() implies (
        #[trigger] l2.payments[i]).memo.len() <= MAX_MEMO_LEN by {
            assert(l2.payments[i].memo == l.payments[i].memo);
        }
    }
}

/// `mark_notification_read` preserves the ledger invariant.
pub proof fn lemma_mark_notification_read_wf(
    l: LedgerView,
    caller: u64,
    organization: u64,
    department_name: Seq<char>,
    payment_id: u64,
)
    requires
        l.wf(),
    ensures
        l.mark_notification_read(caller, organization, department_name, payment_id).0.wf(),
{
    let (l2, r) = l.mark_notification_read(caller, organization, department_name, payment_id);
    if r is Ok {
        let ni = l.notification_idx(organization, department_name, payment_id);
        assert(l.has_notification(organization, department_name, payment_id));
        assert(0 <= ni < l.notifications.len() && notification_has_key(
            l.notifications[ni],
            organization,
            department_name,
            payment_id,
        ));
        // Notifications keep their payment keys; only the flag at `ni` changes.
        assert forall|i: int| 0 <= i < l2.notifications.len() implies {
            let n2 = #[trigger] l2.notifications[i];
            let n1 = l.notifications[i];
            n2.organization == n1.organization && n2.department_name == n1.department_name
                && n2.payment_id == n1.payment_id
        } by {
            if i != ni {
                assert(l2.notifications[i] == l.notifications[i]);
            }
        }
        assert forall|i: int, j: int|
            0 <= i < l2.notifications.len() && 0 <= j < l2.notifications.len() && i
                != j implies !notification_has_key(
            #[trigger] l2.notifications[i],
            (#[trigger] l2.notifications[j]).organization,
            l2.notifications[j].department_name,
            l2.notifications[j].payment_id,
        ) by {
            assert(!notification_has_key(
                l.notifications[i],
                l.notifications[j].organization,
                l.notifications[j].department_name,
                l.notifications[j].payment_id,
            ));
        }
        assert forall|i: int| 0 <= i < l2.notifications.len() implies {
            let n = #[trigger] l2.notifications[i];
            has_payment_in(l2.payments, n.organization, n.department_name, n.payment_id)
                && l2.payments[payment_idx_in(
                l2.payments,
                n.organization,
                n.department_name,
                n.payment_id,
            )].status is Executed
        } by {
            let n1 = l.notifications[i];
            assert(l2.notifications[i].organization == n1.organization
                && l2.notifications[i].department_name == n1.department_name
                && l2.notifications[i].payment_id == n1.payment_id);
            assert(has_payment_in(l.payments, n1.organization, n1.department_name, n1.payment_id));
            assert(l.payments[payment_idx_in(
                l.payments,
                n1.organization,
                n1.department_name,
                n1.payment_id,
            )].status is Executed);
        }
    }
}

/// Budget ceiling: a department is only ever created with an allocation that
/// fits within the organization's total budget as it stands at that call.
pub proof fn lemma_budget_ceiling(
    l: LedgerView,
    caller: u64,
    organization: u64,
    name: Seq<char>,
    budget_allocation: u64,
)
    requires
        l.wf(),
    ensures
        l.create_department(caller, organization, name, budget_allocation).1 is Ok
            ==> budget_allocation <= l.org(organization).total_budget,
{
}

/// The budget ceiling is per call, not cumulative: two departments whose
/// allocations each fit the total budget are both created, whatever their sum.
pub proof fn lemma_budget_ceiling_not_cumulative(
    l: LedgerView,
    caller: u64,
    organization: u64,
    name1: Seq<char>,
    budget_allocation1: u64,
    name2: Seq<char>,
    budget_allocation2: u64,
)
    requires
        l.wf(),
        l.has_org(organization),
        caller == l.org(organization).authority,
        budget_allocation1 <= l.org(organization).total_budget,
        budget_allocation2 <= l.org(organization).total_budget,
        name1 != name2,
        !l.has_dept(organization, name1),
        !l.has_dept(organization, name2),
    ensures
        l.create_department(caller, organization, name1, budget_allocation1).1 is Ok,
        l.create_department(caller, organization, name1, budget_allocation1).0.create_department(
            caller,
            organization,
            name2,
            budget_allocation2,
        ).1 is Ok,
{
    let l1 = l.create_department(caller, organization, name1, budget_allocation1).0;
    assert forall|j: int| 0 <= j < l1.departments.len() implies !dept_has_key(
        #[trigger] l1.departments[j],
        organization,
        name2,
    ) by {
        if j < l.departments.len() {
            assert(l1.departments[j] == l.departments[j]);
        }
    }
    assert(!l1.has_dept(organization, name2));
}

/// Debit monotonicity: no operation removes a department, changes its name,
/// allocation or owner, or decreases its cumulative `budget_used`.
pub proof fn lemma_budget_used_monotonic(l: LedgerView, op: Op)
    requires
        l.wf(),
    ensures
        l.departments.len() <= step(l, op).0.departments.len(),
        forall|i: int|
            0 <= i < l.departments.len() ==> (#[trigger] step(l, op).0.departments[i]).budget_used
                >= l.departments[i].budget_used,
        forall|i: int|
            0 <= i < l.departments.len() ==> (#[trigger] step(l, op).0.departments[i]).name
                == l.departments[i].name,
        forall|i: int|
            0 <= i < l.departments.len() ==> (
            #[trigger] step(l, op).0.departments[i]).budget_allocation
                == l.departments[i].budget_allocation,
        forall|i: int|
            0 <= i < l.departments.len() ==> (#[trigger] step(l, op).0.departments[i]).authority
                == l.departments[i].authority,
{
    let l2 = step(l, op).0;
    assert forall|i: int| 0 <= i < l.departments.len() implies {
        let d1 = l.departments[i];
        let d2 = #[trigger] l2.departments[i];
        d2.budget_used >= d1.budget_used && d2.name == d1.name && d2.budget_allocation
            == d1.budget_allocation && d2.authority == d1.authority
    } by {
        match op {
            Op::ExecutePayment { caller, organization, department_name, payment_id, now } => {
                let (lx, r) = l.execute_payment(caller, organization, department_name, payment_id, now);
                if r is Ok {
                    let di = l.dept_idx(organization, department_name);
                    if i != di {
                        assert(lx.departments[i] == l.departments[i]);
                    }
                } else {
                    assert(lx == l);
                }
            },
            _ => {},
        }
    }
}

/// Debit exactness: a successful execution debits the owning department by
/// exactly the payment's amount and touches no other department.
pub proof fn lemma_execute_debits_exactly(
    l: LedgerView,
    caller: u64,
    organization: u64,
    department_name: Seq<char>,
    payment_id: u64,
    now: i64,
)
    requires
        l.wf(),
        l.execute_payment(caller, organization, department_name, payment_id, now).1 is Ok,
    ensures
        ({
            let l2 = l.execute_payment(caller, organization, department_name, payment_id, now).0;
            let di = l.dept_idx(organization, department_name);
            let p = l.payment(organization, department_name, payment_id);
            &&& 0 <= di < l.departments.len()
            &&& l2.departments[di].budget_used == l.departments[di].budget_used + p.amount
            &&& forall|i: int|
                0 <= i < l.departments.len() && i != di ==> #[trigger] l2.departments[i]
                    == l.departments[i]
        }),
{
    assert(l.has_dept(organization, department_name));
    let di = l.dept_idx(organization, department_name);
    assert(0 <= di < l.departments.len() && dept_has_key(
        l.departments[di],
        organization,
        department_name,
    ));
}

/// A payment's status moves one way: no operation ever changes a status except
/// from `Scheduled` to `Executed`, and no operation removes a payment.
pub proof fn lemma_payment_status_one_way(l: LedgerView, op: Op)
    requires
        l.wf(),
    ensures
        l.payments.len() <= step(l, op).0.payments.len(),
        forall|i: int|
            0 <= i < l.payments.len() ==> ((#[trigger] step(l, op).0.payments[i]).status
                == l.payments[i].status || (l.payments[i].status is Scheduled && step(
                l,
                op,
            ).0.payments[i].status is Executed)),
{
    let l2 = step(l, op).0;
    assert forall|i: int| 0 <= i < l.payments.len() implies ((#[trigger] l2.payments[i]).status
        == l.payments[i].status || (l.payments[i].status is Scheduled
        && l2.payments[i].status is Executed)) by {
        match op {
            Op::ExecutePayment { caller, organization, department_name, payment_id, now } => {
                let (lx, r) = l.execute_payment(caller, organization, department_name, payment_id, now);
                if r is Ok {
                    let pi = l.payment_idx(organization, department_name, payment_id);
                    if i != pi {
                        assert(lx.payments[i] == l.payments[i]);
                    } else {
                        assert(l.payments[pi].status is Scheduled);
                    }
                } else {
                    assert(lx == l);
                }
            },
            _ => {},
        }
    }
}

/// Once executed, always executed: executing the same payment again fails with
/// `InvalidPaymentStatus` and leaves the ledger exactly as it was.
pub proof fn lemma_executed_payment_stays_executed(
    l: LedgerView,
    caller: u64,
    organization: u64,
    department_name: Seq<char>,
    payment_id: u64,
    now1: i64,
    now2: i64,
)
    requires
        l.wf(),
        l.execute_payment(caller, organization, department_name, payment_id, now1).1 is Ok,
    ensures
        ({
            let l1 = l.execute_payment(caller, organization, department_name, payment_id, now1).0;
            &&& l1.execute_payment(caller, organization, department_name, payment_id, now2).0 == l1
            &&& l1.execute_payment(caller, organization, department_name, payment_id, now2).1
                == Err::<(), BudgetError>(BudgetError::InvalidPaymentStatus)
        }),
{
    let l1 = l.execute_payment(caller, organization, department_name, payment_id, now1).0;
    let pi = l.payment_idx(organization, department_name, payment_id);
    let di = l.dept_idx(organization, department_name);
    assert(l.has_payment(organization, department_name, payment_id));
    assert(0 <= pi < l.payments.len() && payment_has_key(
        l.payments[pi],
        organization,
        department_name,
        payment_id,
    ));
    assert(l.has_dept(organization, department_name));
    assert(0 <= di < l.departments.len() && dept_has_key(
        l.departments[di],
        organization,
        department_name,
    ));
    lemma_execute_payment_wf(l, caller, organization, department_name, payment_id, now1);
    assert(l1.organizations == l.organizations);
    assert(l1.has_org(organization) && l1.org(organization) == l.org(organization));
    assert(dept_has_key(l1.departments[di], organization, department_name));
    lemma_dept_idx_is(l1, organization, department_name, di);
    assert(payment_has_key(l1.payments[pi], organization, department_name, payment_id));
    lemma_payment_idx_is(l1, organization, department_name, payment_id, pi);
    assert(l1.payments[pi].status is Executed);
}

/// Time gating: executing a scheduled payment before its execution date fails
/// with `PaymentNotDue` and mutates nothing: no status change, no debit, no
/// notification.
pub proof fn lemma_time_gating(
    l: LedgerView,
    caller: u64,
    organization: u64,
    department_name: Seq<char>,
    payment_id: u64,
    now: i64,
)
    requires
        l.wf(),
        l.has_org(organization),
        caller == l.org(organization).authority,
        l.has_dept(organization, department_name),
        l.has_payment(organization, department_name, payment_id),
        l.payment(organization, department_name, payment_id).status is Scheduled,
        now < l.payment(organization, department_name, payment_id).execution_date,
    ensures
        l.execute_payment(caller, organization, department_name, payment_id, now).0 == l,
        l.execute_payment(caller, organization, department_name, payment_id, now).1 == Err::<
            (),
            BudgetError,
        >(BudgetError::PaymentNotDue),
{
}

/// Reading a notification is idempotent: after a successful
/// `mark_notification_read`, the flag is set, and marking it again — by any
/// verified caller — succeeds and changes nothing at all.
pub proof fn lemma_mark_read_idempotent(
    l: LedgerView,
    caller: u64,
    caller2: u64,
    organization: u64,
    department_name: Seq<char>,
    payment_id: u64,
)
    requires
        l.wf(),
        l.mark_notification_read(caller, organization, department_name, payment_id).1 is Ok,
    ensures
        ({
            let l1 = l.mark_notification_read(caller, organization, department_name, payment_id).0;
            &&& l1.notification(organization, department_name, payment_id).is_read
            &&& l1.mark_notification_read(caller2, organization, department_name, payment_id).0
                == l1
            &&& l1.mark_notification_read(caller2, organization, department_name, payment_id).1
                is Ok
        }),
{
    let l1 = l.mark_notification_read(caller, organization, department_name, payment_id).0;
    let ni = l.notification_idx(organization, department_name, payment_id);
    assert(l.has_notification(organization, department_name, payment_id));
    assert(0 <= ni < l.notifications.len() && notification_has_key(
        l.notifications[ni],
        organization,
        department_name,
        payment_id,
    ));
    lemma_mark_notification_read_wf(l, caller, organization, department_name, payment_id);
    assert(notification_has_key(l1.notifications[ni], organization, department_name, payment_id));
    lemma_notification_idx_is(l1, organization, department_name, payment_id, ni);
    assert(l1.notifications[ni].is_read);
    let l2 = l1.mark_notification_read(caller2, organization, department_name, payment_id).0;
    assert((NotificationView {
        is_read: true,
        ..l1.notification(organization, department_name, payment_id)
    }) =~= l1.notifications[ni]);
    assert(l2.notifications =~= l1.notifications);
    assert(l2 =~= l1);
}

} // verus!
