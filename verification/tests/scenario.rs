use crypto_flow_blitz::entities::{
    CreateDepartment, ExecutePayment, Initialize, PaymentStatus, SchedulePayment, SetBudget,
};
use crypto_flow_blitz::errors::BudgetError;
use crypto_flow_blitz::ledger::Ledger;

#[test]
fn scenario_engineering_budget() {
    let mut l = Ledger::new();
    let auth = 1u64;
    assert!(l.initialize(&Initialize { authority: auth }).is_ok());
    assert!(l
        .set_budget(&SetBudget { organization: auth, authority: auth }, 1000)
        .is_ok());
    let eng = "Eng".to_string();
    assert!(l
        .create_department(
            &CreateDepartment { organization: auth, authority: auth },
            eng.clone(),
            600
        )
        .is_ok());
    let sched = SchedulePayment {
        organization: auth,
        department_name: eng.clone(),
        authority: auth,
    };
    assert!(l
        .schedule_payment(&sched, 500, 42, "server invoices".to_string(), 100, 1)
        .is_ok());
    let exec = ExecutePayment {
        organization: auth,
        department_name: eng.clone(),
        payment_id: 1,
        authority: auth,
    };

    // Before the execution date: refused, and nothing is mutated.
    assert_eq!(l.execute_payment(&exec, 99), Err(BudgetError::PaymentNotDue));
    assert_eq!(
        l.get_payment(auth, &eng, 1).unwrap().status,
        PaymentStatus::Scheduled
    );
    assert_eq!(l.get_department(auth, &eng).unwrap().budget_used, 0);
    assert!(l.get_notification(auth, &eng, 1).is_none());

    // At the execution date: executed, debited, one unread notification.
    assert!(l.execute_payment(&exec, 100).is_ok());
    assert_eq!(
        l.get_payment(auth, &eng, 1).unwrap().status,
        PaymentStatus::Executed
    );
    assert_eq!(l.get_department(auth, &eng).unwrap().budget_used, 500);
    let n = l.get_notification(auth, &eng, 1).unwrap();
    assert!(!n.is_read);
    assert_eq!(n.timestamp, 100);

    // A second payment of 200 would push usage to 700 > 600: refused.
    assert_eq!(
        l.schedule_payment(&sched, 200, 42, "overrun".to_string(), 100, 2),
        Err(BudgetError::DepartmentBudgetExceeded)
    );
    assert!(l.get_payment(auth, &eng, 2).is_none());
}

#[test]
fn executed_payment_message_embeds_amount_and_recipient() {
    let mut l = Ledger::new();
    assert!(l.initialize(&Initialize { authority: 9 }).is_ok());
    assert!(l
        .set_budget(&SetBudget { organization: 9, authority: 9 }, 1000)
        .is_ok());
    let dept = "Ops".to_string();
    assert!(l
        .create_department(
            &CreateDepartment { organization: 9, authority: 9 },
            dept.clone(),
            1000
        )
        .is_ok());
    let sched = SchedulePayment {
        organization: 9,
        department_name: dept.clone(),
        authority: 9,
    };
    assert!(l
        .schedule_payment(&sched, 500, 42, "invoice".to_string(), 0, 1)
        .is_ok());
    let exec = ExecutePayment {
        organization: 9,
        department_name: dept.clone(),
        payment_id: 1,
        authority: 9,
    };
    assert!(l.execute_payment(&exec, 7).is_ok());
    let n = l.get_notification(9, &dept, 1).unwrap();
    assert_eq!(n.message, "Payment of 500 to 42 was executed successfully");
    assert_eq!(n.timestamp, 7);
    assert!(!n.is_read);
}

#[test]
fn message_renders_every_decimal_digit() {
    let mut l = Ledger::new();
    assert!(l.initialize(&Initialize { authority: 6 }).is_ok());
    assert!(l
        .set_budget(&SetBudget { organization: 6, authority: 6 }, u64::MAX)
        .is_ok());
    let dept = "Lab".to_string();
    assert!(l
        .create_department(
            &CreateDepartment { organization: 6, authority: 6 },
            dept.clone(),
            u64::MAX
        )
        .is_ok());
    let sched = SchedulePayment {
        organization: 6,
        department_name: dept.clone(),
        authority: 6,
    };
    assert!(l
        .schedule_payment(&sched, 9876543210, 1023456789, "wide".to_string(), 0, 1)
        .is_ok());
    let exec = ExecutePayment {
        organization: 6,
        department_name: dept.clone(),
        payment_id: 1,
        authority: 6,
    };
    assert!(l.execute_payment(&exec, 0).is_ok());
    let n = l.get_notification(6, &dept, 1).unwrap();
    assert_eq!(
        n.message,
        "Payment of 9876543210 to 1023456789 was executed successfully"
    );
}

#[test]
fn zero_amount_payment_message() {
    let mut l = Ledger::new();
    assert!(l.initialize(&Initialize { authority: 3 }).is_ok());
    assert!(l
        .set_budget(&SetBudget { organization: 3, authority: 3 }, 10)
        .is_ok());
    let dept = "HR".to_string();
    assert!(l
        .create_department(
            &CreateDepartment { organization: 3, authority: 3 },
            dept.clone(),
            10
        )
        .is_ok());
    let sched = SchedulePayment {
        organization: 3,
        department_name: dept.clone(),
        authority: 3,
    };
    assert!(l.schedule_payment(&sched, 0, 1000000007, "memo".to_string(), 0, 5).is_ok());
    let exec = ExecutePayment {
        organization: 3,
        department_name: dept.clone(),
        payment_id: 5,
        authority: 3,
    };
    assert!(l.execute_payment(&exec, 0).is_ok());
    let n = l.get_notification(3, &dept, 5).unwrap();
    assert_eq!(n.message, "Payment of 0 to 1000000007 was executed successfully");
    assert_eq!(l.get_department(3, &dept).unwrap().budget_used, 0);
}
