use crypto_flow_blitz::entities::{
    CreateDepartment, ExecutePayment, Initialize, MarkNotificationRead, PaymentStatus,
    SchedulePayment, SetBudget,
};
use crypto_flow_blitz::errors::BudgetError;
use crypto_flow_blitz::ledger::Ledger;

fn ledger_with_org(auth: u64, budget: u64) -> Ledger {
    let mut l = Ledger::new();
    assert!(l.initialize(&Initialize { authority: auth }).is_ok());
    assert!(l
        .set_budget(&SetBudget { organization: auth, authority: auth }, budget)
        .is_ok());
    l
}

fn with_department(l: &mut Ledger, auth: u64, name: &str, allocation: u64) {
    assert!(l
        .create_department(
            &CreateDepartment { organization: auth, authority: auth },
            name.to_string(),
            allocation
        )
        .is_ok());
}

#[test]
fn initialize_starts_with_zero_budget() {
    let mut l = Ledger::new();
    assert!(l.initialize(&Initialize { authority: 4 }).is_ok());
    let o = l.get_organization(4).unwrap();
    assert_eq!(o.authority, 4);
    assert_eq!(o.total_budget, 0);
}

#[test]
fn initialize_twice_already_exists() {
    let mut l = Ledger::new();
    assert!(l.initialize(&Initialize { authority: 4 }).is_ok());
    assert_eq!(
        l.initialize(&Initialize { authority: 4 }),
        Err(BudgetError::AlreadyExists)
    );
    // A different authority still gets its own organization.
    assert!(l.initialize(&Initialize { authority: 5 }).is_ok());
}

#[test]
fn set_budget_requires_existing_organization() {
    let mut l = Ledger::new();
    assert_eq!(
        l.set_budget(&SetBudget { organization: 1, authority: 1 }, 10),
        Err(BudgetError::NotFound)
    );
}

#[test]
fn set_budget_requires_authority() {
    let mut l = Ledger::new();
    assert!(l.initialize(&Initialize { authority: 1 }).is_ok());
    assert_eq!(
        l.set_budget(&SetBudget { organization: 1, authority: 2 }, 10),
        Err(BudgetError::Unauthorized)
    );
    assert_eq!(l.get_organization(1).unwrap().total_budget, 0);
}

#[test]
fn set_budget_overwrites_unconditionally() {
    let mut l = ledger_with_org(1, 1000);
    with_department(&mut l, 1, "Eng", 900);
    // Lowering the total budget below an existing allocation is allowed.
    assert!(l.set_budget(&SetBudget { organization: 1, authority: 1 }, 5).is_ok());
    assert_eq!(l.get_organization(1).unwrap().total_budget, 5);
    let eng = "Eng".to_string();
    assert_eq!(l.get_department(1, &eng).unwrap().budget_allocation, 900);
}

#[test]
fn create_department_checks_allocation_against_budget() {
    let mut l = ledger_with_org(1, 100);
    assert_eq!(
        l.create_department(
            &CreateDepartment { organization: 1, authority: 1 },
            "Eng".to_string(),
            101
        ),
        Err(BudgetError::InsufficientBudget)
    );
    // An allocation equal to the whole budget is allowed.
    with_department(&mut l, 1, "Eng", 100);
    let eng = "Eng".to_string();
    let d = l.get_department(1, &eng).unwrap();
    assert_eq!(d.budget_allocation, 100);
    assert_eq!(d.budget_used, 0);
    assert_eq!(d.authority, 1);
}

#[test]
fn create_department_duplicate_name_already_exists() {
    let mut l = ledger_with_org(1, 100);
    with_department(&mut l, 1, "Eng", 10);
    assert_eq!(
        l.create_department(
            &CreateDepartment { organization: 1, authority: 1 },
            "Eng".to_string(),
            20
        ),
        Err(BudgetError::AlreadyExists)
    );
    // The same name under another organization is its own department.
    let mut l2 = ledger_with_org(2, 100);
    with_department(&mut l2, 2, "Eng", 30);
}

#[test]
fn create_department_requires_authority() {
    let mut l = ledger_with_org(1, 100);
    assert_eq!(
        l.create_department(
            &CreateDepartment { organization: 1, authority: 9 },
            "Eng".to_string(),
            10
        ),
        Err(BudgetError::Unauthorized)
    );
    assert_eq!(
        l.create_department(
            &CreateDepartment { organization: 3, authority: 3 },
            "Eng".to_string(),
            10
        ),
        Err(BudgetError::NotFound)
    );
}

#[test]
fn allocations_may_jointly_exceed_total_budget() {
    // Each allocation fits the budget at its own call; their sum does not.
    // This documents the point-in-time check: nothing is reserved.
    let mut l = ledger_with_org(1, 1000);
    with_department(&mut l, 1, "Eng", 600);
    with_department(&mut l, 1, "Sales", 600);
    let eng = "Eng".to_string();
    let sales = "Sales".to_string();
    assert_eq!(l.get_department(1, &eng).unwrap().budget_allocation, 600);
    assert_eq!(l.get_department(1, &sales).unwrap().budget_allocation, 600);
}

#[test]
fn schedule_payment_checks_remaining_allocation() {
    let mut l = ledger_with_org(1, 1000);
    with_department(&mut l, 1, "Eng", 600);
    let sched = SchedulePayment {
        organization: 1,
        department_name: "Eng".to_string(),
        authority: 1,
    };
    // Exactly the remaining allocation is allowed.
    assert!(l.schedule_payment(&sched, 600, 2, "a".to_string(), 0, 1).is_ok());
    let eng = "Eng".to_string();
    let p = l.get_payment(1, &eng, 1).unwrap();
    assert_eq!(p.amount, 600);
    assert_eq!(p.recipient, 2);
    assert_eq!(p.status, PaymentStatus::Scheduled);
    assert_eq!(p.memo, "a");
    // Scheduling does not debit, so a second scheduled payment still passes
    // the check against budget_used == 0.
    assert!(l.schedule_payment(&sched, 600, 2, "b".to_string(), 0, 2).is_ok());
    assert_eq!(l.get_department(1, &eng).unwrap().budget_used, 0);
}

#[test]
fn schedule_payment_duplicate_id_already_exists() {
    let mut l = ledger_with_org(1, 1000);
    with_department(&mut l, 1, "Eng", 600);
    let sched = SchedulePayment {
        organization: 1,
        department_name: "Eng".to_string(),
        authority: 1,
    };
    assert!(l.schedule_payment(&sched, 1, 2, "a".to_string(), 0, 7).is_ok());
    assert_eq!(
        l.schedule_payment(&sched, 2, 3, "b".to_string(), 0, 7),
        Err(BudgetError::AlreadyExists)
    );
}

#[test]
fn schedule_payment_missing_department_not_found() {
    let mut l = ledger_with_org(1, 1000);
    let sched = SchedulePayment {
        organization: 1,
        department_name: "Eng".to_string(),
        authority: 1,
    };
    assert_eq!(
        l.schedule_payment(&sched, 1, 2, "a".to_string(), 0, 1),
        Err(BudgetError::NotFound)
    );
}

#[test]
fn execute_payment_missing_payment_not_found() {
    let mut l = ledger_with_org(1, 1000);
    with_department(&mut l, 1, "Eng", 600);
    let exec = ExecutePayment {
        organization: 1,
        department_name: "Eng".to_string(),
        payment_id: 1,
        authority: 1,
    };
    assert_eq!(l.execute_payment(&exec, 0), Err(BudgetError::NotFound));
}

#[test]
fn execute_payment_twice_invalid_status() {
    let mut l = ledger_with_org(1, 1000);
    with_department(&mut l, 1, "Eng", 600);
    let sched = SchedulePayment {
        organization: 1,
        department_name: "Eng".to_string(),
        authority: 1,
    };
    assert!(l.schedule_payment(&sched, 100, 2, "a".to_string(), 50, 1).is_ok());
    let exec = ExecutePayment {
        organization: 1,
        department_name: "Eng".to_string(),
        payment_id: 1,
        authority: 1,
    };
    assert!(l.execute_payment(&exec, 50).is_ok());
    let eng = "Eng".to_string();
    assert_eq!(l.get_department(1, &eng).unwrap().budget_used, 100);
    // Once executed, a payment never leaves that state.
    assert_eq!(
        l.execute_payment(&exec, 60),
        Err(BudgetError::InvalidPaymentStatus)
    );
    // And the failed retry debited nothing.
    assert_eq!(l.get_department(1, &eng).unwrap().budget_used, 100);
}

#[test]
fn execute_payment_requires_authority() {
    let mut l = ledger_with_org(1, 1000);
    with_department(&mut l, 1, "Eng", 600);
    let sched = SchedulePayment {
        organization: 1,
        department_name: "Eng".to_string(),
        authority: 1,
    };
    assert!(l.schedule_payment(&sched, 100, 2, "a".to_string(), 0, 1).is_ok());
    let exec = ExecutePayment {
        organization: 1,
        department_name: "Eng".to_string(),
        payment_id: 1,
        authority: 8,
    };
    assert_eq!(l.execute_payment(&exec, 0), Err(BudgetError::Unauthorized));
}

#[test]
fn execute_payment_overflow_is_refused() {
    let mut l = ledger_with_org(1, u64::MAX);
    with_department(&mut l, 1, "Eng", u64::MAX);
    let sched = SchedulePayment {
        organization: 1,
        department_name: "Eng".to_string(),
        authority: 1,
    };
    assert!(l.schedule_payment(&sched, u64::MAX, 2, "a".to_string(), 0, 1).is_ok());
    assert!(l.schedule_payment(&sched, 1, 2, "b".to_string(), 0, 2).is_ok());
    let exec1 = ExecutePayment {
        organization: 1,
        department_name: "Eng".to_string(),
        payment_id: 1,
        authority: 1,
    };
    let exec2 = ExecutePayment {
        organization: 1,
        department_name: "Eng".to_string(),
        payment_id: 2,
        authority: 1,
    };
    assert!(l.execute_payment(&exec1, 0).is_ok());
    let eng = "Eng".to_string();
    assert_eq!(l.get_department(1, &eng).unwrap().budget_used, u64::MAX);
    // The second debit would not fit in the usage counter.
    assert_eq!(l.execute_payment(&exec2, 0), Err(BudgetError::InvalidAmount));
    assert_eq!(
        l.get_payment(1, &eng, 2).unwrap().status,
        PaymentStatus::Scheduled
    );
}

#[test]
fn mark_notification_read_is_idempotent() {
    let mut l = ledger_with_org(1, 1000);
    with_department(&mut l, 1, "Eng", 600);
    let sched = SchedulePayment {
        organization: 1,
        department_name: "Eng".to_string(),
        authority: 1,
    };
    assert!(l.schedule_payment(&sched, 100, 2, "a".to_string(), 0, 1).is_ok());
    let exec = ExecutePayment {
        organization: 1,
        department_name: "Eng".to_string(),
        payment_id: 1,
        authority: 1,
    };
    assert!(l.execute_payment(&exec, 0).is_ok());
    let eng = "Eng".to_string();
    assert!(!l.get_notification(1, &eng, 1).unwrap().is_read);
    let mark = MarkNotificationRead {
        organization: 1,
        department_name: "Eng".to_string(),
        payment_id: 1,
        authority: 1,
    };
    assert!(l.mark_notification_read(&mark).is_ok());
    assert!(l.get_notification(1, &eng, 1).unwrap().is_read);
    // The second call succeeds and the flag stays set; the caller need not be
    // the organization's authority.
    let mark_other = MarkNotificationRead {
        organization: 1,
        department_name: "Eng".to_string(),
        payment_id: 1,
        authority: 99,
    };
    assert!(l.mark_notification_read(&mark_other).is_ok());
    assert!(l.get_notification(1, &eng, 1).unwrap().is_read);
}

#[test]
fn mark_notification_read_missing_not_found() {
    let mut l = ledger_with_org(1, 1000);
    let mark = MarkNotificationRead {
        organization: 1,
        department_name: "Eng".to_string(),
        payment_id: 1,
        authority: 1,
    };
    assert_eq!(l.mark_notification_read(&mark), Err(BudgetError::NotFound));
}

#[test]
fn budget_used_increases_by_exact_amounts() {
    let mut l = ledger_with_org(1, 1000);
    with_department(&mut l, 1, "Eng", 600);
    let sched = SchedulePayment {
        organization: 1,
        department_name: "Eng".to_string(),
        authority: 1,
    };
    assert!(l.schedule_payment(&sched, 250, 2, "a".to_string(), 0, 1).is_ok());
    assert!(l.schedule_payment(&sched, 100, 2, "b".to_string(), 0, 2).is_ok());
    let eng = "Eng".to_string();
    let mut used = Vec::new();
    used.push(l.get_department(1, &eng).unwrap().budget_used);
    let exec1 = ExecutePayment {
        organization: 1,
        department_name: "Eng".to_string(),
        payment_id: 1,
        authority: 1,
    };
    assert!(l.execute_payment(&exec1, 0).is_ok());
    used.push(l.get_department(1, &eng).unwrap().budget_used);
    let exec2 = ExecutePayment {
        organization: 1,
        department_name: "Eng".to_string(),
        payment_id: 2,
        authority: 1,
    };
    assert!(l.execute_payment(&exec2, 0).is_ok());
    used.push(l.get_department(1, &eng).unwrap().budget_used);
    assert_eq!(used, vec![0, 250, 350]);
}

#[test]
fn failed_status_never_produced() {
    // `Failed` is a declared terminal state with no producing transition; a
    // full run of the lifecycle never yields it.
    let mut l = ledger_with_org(1, 1000);
    with_department(&mut l, 1, "Eng", 600);
    let sched = SchedulePayment {
        organization: 1,
        department_name: "Eng".to_string(),
        authority: 1,
    };
    assert!(l.schedule_payment(&sched, 10, 2, "a".to_string(), 0, 1).is_ok());
    let eng = "Eng".to_string();
    assert_ne!(l.get_payment(1, &eng, 1).unwrap().status, PaymentStatus::Failed);
    let exec = ExecutePayment {
        organization: 1,
        department_name: "Eng".to_string(),
        payment_id: 1,
        authority: 1,
    };
    assert!(l.execute_payment(&exec, 0).is_ok());
    assert_ne!(l.get_payment(1, &eng, 1).unwrap().status, PaymentStatus::Failed);
}
