use ixc_schema::scheduler::{ScheduleRuns, ScheduledAccount, Scheduler, SchedulerError};

/// Accounts that record when they are run; account 13 always fails.
#[derive(Default)]
struct Accounts {
    runs: Vec<(u128, String)>,
}

impl ScheduledAccount for Accounts {
    // The log of runs exists only for the proofs; nothing reads it at run time.
    fn runs(&self) -> ScheduleRuns {
        unreachable!()
    }

    fn schedule(&mut self, account: u128, identifier: &str) -> Result<(), String> {
        self.runs.push((account, identifier.to_string()));
        if account == 13 { Err("failed".to_string()) } else { Ok(()) }
    }
}

#[test]
fn test_scheduler() {}

#[test]
fn only_the_unset_admin_can_set_up() {
    assert_eq!(Scheduler::create(5, vec![("begin_block", vec![1, 2])]).err(), Some(SchedulerError::Unauthorized));
    assert!(Scheduler::create(0, vec![("begin_block", vec![1, 2])]).is_ok());
}

#[test]
fn scheduled_accounts_run_in_order_despite_failures() {
    let mut s = Scheduler::create(0, vec![("begin_block", vec![7, 13, 8]), ("end_block", vec![9])]).unwrap();
    let mut accounts = Accounts::default();
    assert_eq!(s.schedule(&mut accounts, 0, "begin_block"), Ok(()));
    assert_eq!(
        accounts.runs,
        vec![(7, "begin_block".to_string()), (13, "begin_block".to_string()), (8, "begin_block".to_string())]
    );
    assert_eq!(s.schedule(&mut accounts, 4, "end_block"), Err(SchedulerError::Unauthorized));
    assert_eq!(accounts.runs.len(), 3);
    assert_eq!(s.schedule(&mut accounts, 0, "unknown"), Ok(()));
    assert_eq!(accounts.runs.len(), 3);

    // a later entry for an identifier replaces the earlier one
    assert_eq!(s.update_scheduling_map(0, vec![("end_block", vec![1]), ("end_block", vec![2, 3])]), Ok(()));
    assert_eq!(s.update_scheduling_map(1, vec![("end_block", vec![4])]), Err(SchedulerError::Unauthorized));
    s.schedule(&mut accounts, 0, "end_block").unwrap();
    assert_eq!(accounts.runs[3..], [(2, "end_block".to_string()), (3, "end_block".to_string())]);
}
