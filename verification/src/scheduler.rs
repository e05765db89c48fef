//! A scheduler that, on request of its admin, runs the scheduled work of the accounts listed
//! under an identifier (such as the start of a block).
use crate::table::Table;
use vstd::prelude::*;
use vstd::utf8::encode_utf8;

verus! {

/// A request to run the work of an account under a schedule identifier.
pub type ScheduleRun = (u128, Seq<char>);

/// Runs in the order they were asked.
pub type ScheduleRuns = Seq<ScheduleRun>;

/// An account with work to run when its schedule comes.
pub trait ScheduledAccount {
    /// The runs asked of the accounts so far, in order.
    spec fn runs(&self) -> ScheduleRuns;

    /// Runs the work `account` scheduled under `identifier`; its failure is its own. The run
    /// is asked whatever comes of it.
    fn schedule(&mut self, account: u128, identifier: &str) -> (r: Result<(), String>)
        ensures
            final(self).runs() == old(self).runs().push((account, identifier@));
}

/// The runs a schedule asks for: each account listed under `identifier`, in order.
pub open spec fn scheduled_runs(m: SchedulerModel, identifier: Seq<char>) -> ScheduleRuns {
    let accounts = if m.scheduling_map.contains_key(identifier_key(identifier)) {
        m.scheduling_map[identifier_key(identifier)]
    } else {
        Seq::empty()
    };
    accounts.map_values(|a: u128| (a, identifier))
}

/// Why the scheduler refused a request.
#[derive(Clone, Copy, Debug, PartialEq, Eq, Structural)]
pub enum SchedulerError {
    /// The caller is not the admin.
    Unauthorized,
}

/// The key under which the accounts of a schedule identifier are kept: its UTF-8 bytes.
pub open spec fn identifier_key(s: Seq<char>) -> Seq<u8> {
    encode_utf8(s)
}

/// What the scheduler holds.
pub struct SchedulerModel {
    /// The account that may update the schedules and run them.
    pub admin: u128,
    /// The accounts to run under each identifier, by [`identifier_key`].
    pub scheduling_map: Map<Seq<u8>, Seq<u128>>,
}

/// `m` after setting each entry in turn; a later entry for an identifier replaces an earlier one.
pub open spec fn updated_map<'a>(m: Map<Seq<u8>, Seq<u128>>, entries: Seq<(&'a str, Vec<u128>)>) -> Map<
    Seq<u8>,
    Seq<u128>,
>
    decreases entries.len(),
{
    if entries.len() == 0 {
        m
    } else {
        updated_map(m, entries.drop_last()).insert(
            identifier_key(entries.last().0@),
            entries.last().1@,
        )
    }
}

/// The scheduler: its admin and the accounts to run under each identifier.
pub struct Scheduler {
    admin: u128,
    scheduling_map: Table<Vec<u128>>,
}

impl View for Scheduler {
    type V = SchedulerModel;

    closed spec fn view(&self) -> SchedulerModel {
        SchedulerModel {
            admin: self.admin,
            scheduling_map: self.scheduling_map@.map_values(|v: Vec<u128>| v@),
        }
    }
}

impl Scheduler {
    /// The table is well formed.
    pub closed spec fn wf(&self) -> bool {
        self.scheduling_map.wf()
    }

    /// A scheduler set up with `scheduling_map`. Its admin is the account that was never set,
    /// zero, and setting up is an update that only the admin may make: refused for any other
    /// caller.
    pub fn create<'a>(caller: u128, scheduling_map: Vec<(&'a str, Vec<u128>)>) -> (r: Result<
        Scheduler,
        SchedulerError,
    >)
        ensures
            match r {
                Ok(s) => caller == 0 && s.wf() && s@.admin == 0 && s@.scheduling_map == updated_map(
                    Map::empty(),
                    scheduling_map@,
                ),
                Err(e) => e == SchedulerError::Unauthorized && caller != 0,
            },
    {
        let mut s = Scheduler { admin: 0, scheduling_map: Table::new() };
        proof {
            assert(s@.scheduling_map =~= Map::<Seq<u8>, Seq<u128>>::empty());
        }
        match s.update_scheduling_map(caller, scheduling_map) {
            Ok(()) => Ok(s),
            Err(e) => Err(e),
        }
    }

    /// Sets the accounts of each identifier in turn; only the admin may.
    pub fn update_scheduling_map<'a>(
        &mut self,
        caller: u128,
        scheduling_map: Vec<(&'a str, Vec<u128>)>,
    ) -> (r: Result<(), SchedulerError>)
        requires
            old(self).wf(),
        ensures
            final(self).wf(),
            match r {
                Ok(()) => caller == old(self)@.admin && final(self)@ == (SchedulerModel {
                    scheduling_map: updated_map(old(self)@.scheduling_map, scheduling_map@),
                    ..old(self)@
                }),
                Err(e) => e == SchedulerError::Unauthorized && caller != old(self)@.admin
                    && final(self)@ == old(self)@,
            },
    {
        if caller != self.admin {
            return Err(SchedulerError::Unauthorized);
        }
        let ghost start = self@.scheduling_map;
        let mut i: usize = 0;
        while i < scheduling_map.len()
            invariant
                self.wf(),
                self.admin == old(self).admin,
                i <= scheduling_map@.len(),
                self@.scheduling_map == updated_map(start, scheduling_map@.subrange(0, i as int)),
            decreases scheduling_map@.len() - i,
        {
            let key = scheduling_map[i].0.as_bytes();
            let accounts = vstd::slice::slice_to_vec(scheduling_map[i].1.as_slice());
            let ghost before = self.scheduling_map@;
            self.scheduling_map.set(key, accounts);
            proof {
                let p = scheduling_map@.subrange(0, i + 1);
                assert(p.drop_last() =~= scheduling_map@.subrange(0, i as int));
                assert(p.last() == scheduling_map@[i as int]);
                assert(self@.scheduling_map =~= before.map_values(|v: Vec<u128>| v@).insert(
                    identifier_key(scheduling_map@[i as int].0@),
                    scheduling_map@[i as int].1@,
                ));
            }
            i = i + 1;
        }
        proof {
            assert(scheduling_map@.subrange(0, scheduling_map@.len() as int) =~= scheduling_map@);
        }
        Ok(())
    }

    /// Runs, in order, the scheduled work of each account listed under `schedule_identifier`;
    /// an account that fails does not stop the others. Only the admin may.
    pub fn schedule<A: ScheduledAccount>(
        &self,
        accounts: &mut A,
        caller: u128,
        schedule_identifier: &str,
    ) -> (r: Result<(), SchedulerError>)
        requires
            self.wf(),
        ensures
            r is Ok <==> caller == self@.admin,
            r is Err ==> r == Err::<(), SchedulerError>(SchedulerError::Unauthorized),
            r is Ok ==> final(accounts).runs() == old(accounts).runs() + scheduled_runs(self@, schedule_identifier@),
            r is Err ==> final(accounts).runs() == old(accounts).runs(),
    {
        if caller != self.admin {
            return Err(SchedulerError::Unauthorized);
        }
        let ghost plan = scheduled_runs(self@, schedule_identifier@);
        match self.scheduling_map.get_ref(schedule_identifier.as_bytes()) {
            Some(list) => {
                proof {
                    assert(list@ == self@.scheduling_map[identifier_key(schedule_identifier@)]);
                }
                let mut i: usize = 0;
                while i < list.len()
                    invariant
                        i <= list@.len(),
                        plan == list@.map_values(|a: u128| (a, schedule_identifier@)),
                        accounts.runs() == old(accounts).runs() + plan.take(i as int),
                    decreases list@.len() - i,
                {
                    schedule_account(accounts, list[i], schedule_identifier);
                    proof {
                        assert(plan.take(i + 1) =~= plan.take(i as int).push(plan[i as int]));
                    }
                    i = i + 1;
                }
                proof {
                    assert(plan.take(i as int) =~= plan);
                }
            },
            None => {
                proof {
                    assert(plan =~= Seq::<ScheduleRun>::empty());
                }
            },
        }
        Ok(())
    }
}

/// Runs the scheduled work of `account`, whether or not it succeeds.
fn schedule_account<A: ScheduledAccount>(accounts: &mut A, account: u128, schedule_identifier: &str)
    ensures
        final(accounts).runs() == old(accounts).runs().push((account, schedule_identifier@)),
{
    match accounts.schedule(account, schedule_identifier) {
        Ok(_) => {},
        Err(_) => {},
    }
}

} // verus!
