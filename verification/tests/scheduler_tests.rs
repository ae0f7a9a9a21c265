use feedpipe::cadence::WallTime;
use feedpipe::errors::RegistrationError;
use feedpipe::feed::FeedDescriptor;
use feedpipe::scheduler::Scheduler;

fn desc(url: &str, schedule: &str) -> FeedDescriptor {
    FeedDescriptor {
        url: url.to_string(),
        name: url.to_string(),
        schedule: schedule.to_string(),
    }
}

fn minute_zero() -> WallTime {
    WallTime { second: 0, minute: 0, hour: 9, day_of_month: 15, month: 3, day_of_week: 2 }
}

#[test]
fn add_assigns_sequential_ids() {
    let mut s = Scheduler::new();
    assert_eq!(s.add(desc("a", "* * * * *")).unwrap(), 0);
    assert_eq!(s.add(desc("b", "*/5 * * * *")).unwrap(), 1);
    assert_eq!(s.job_count(), 2);
}

#[test]
fn malformed_cadence_is_rejected_and_not_registered() {
    let mut s = Scheduler::new();
    let r = s.add(desc("bad", "* * *"));
    assert_eq!(r.unwrap_err(), RegistrationError::InvalidScheduleExpression);
    assert_eq!(s.job_count(), 0);
    assert!(!s.contains_feed(&"bad".to_string()));
    // Other feeds still register and run.
    assert!(s.add(desc("good", "* * * * *")).is_ok());
    assert_eq!(s.job_count(), 1);
}

#[test]
fn duplicate_feed_is_rejected() {
    let mut s = Scheduler::new();
    s.add(desc("a", "* * * * *")).unwrap();
    let r = s.add(desc("a", "*/2 * * * *"));
    assert_eq!(r.unwrap_err(), RegistrationError::DuplicateJob);
    assert_eq!(s.job_count(), 1);
}

#[test]
fn parse_failure_is_reported_before_duplicate() {
    let mut s = Scheduler::new();
    s.add(desc("a", "* * * * *")).unwrap();
    let r = s.add(desc("a", "not a cadence"));
    assert_eq!(r.unwrap_err(), RegistrationError::InvalidScheduleExpression);
}

#[test]
fn nothing_fires_before_start() {
    let mut s = Scheduler::new();
    s.add(desc("a", "* * * * *")).unwrap();
    assert!(s.begin_due(&minute_zero()).is_empty());
}

#[test]
fn due_jobs_fire_after_start() {
    let mut s = Scheduler::new();
    s.add(desc("a", "* * * * *")).unwrap();
    s.add(desc("b", "30 * * * *")).unwrap();
    s.start();
    let fired = s.begin_due(&minute_zero());
    assert_eq!(fired, vec![0]);
}

#[test]
fn start_twice_is_a_no_op() {
    let mut s = Scheduler::new();
    s.add(desc("a", "* * * * *")).unwrap();
    s.start();
    s.start();
    assert_eq!(s.begin_due(&minute_zero()), vec![0]);
}

#[test]
fn overlapping_firing_is_skipped() {
    let mut s = Scheduler::new();
    s.add(desc("a", "* * * * *")).unwrap();
    s.start();
    let t = minute_zero();
    assert_eq!(s.begin_due(&t), vec![0]);
    // The job is still running: the second firing is skipped, not queued.
    assert!(s.begin_due(&t).is_empty());
    s.finish(0);
    assert_eq!(s.begin_due(&t), vec![0]);
}

#[test]
fn slow_job_never_delays_other_feeds() {
    let mut s = Scheduler::new();
    s.add(desc("a", "* * * * *")).unwrap();
    s.add(desc("b", "* * * * *")).unwrap();
    s.start();
    let t = minute_zero();
    assert_eq!(s.begin_due(&t), vec![0, 1]);
    s.finish(1);
    // Feed a is still in flight; feed b fires again regardless.
    assert_eq!(s.begin_due(&t), vec![1]);
}

#[test]
fn stop_halts_dispatch() {
    let mut s = Scheduler::new();
    s.add(desc("a", "* * * * *")).unwrap();
    s.start();
    s.stop();
    assert!(s.begin_due(&minute_zero()).is_empty());
}

#[test]
fn unknown_finish_is_a_no_op() {
    let mut s = Scheduler::new();
    s.add(desc("a", "* * * * *")).unwrap();
    s.start();
    s.finish(17);
    assert_eq!(s.begin_due(&minute_zero()), vec![0]);
}
