use deeper::stats::{fill_daily_activity, format_date, recent_days, DailyActivity};
use deeper::task::{cleanup_due, one_offs_to_delete, pick_next, SchedulerState, TaskRecord, MEMORY_CLEANUP_INTERVAL};

fn task(id: i64, kind: &str, schedule: &str, updated_at: i64) -> TaskRecord {
    TaskRecord {
        id,
        title: "t".to_string(),
        content: "c".to_string(),
        kind: kind.to_string(),
        schedule: schedule.to_string(),
        enabled: true,
        created_at: 0,
        updated_at,
    }
}

#[test]
fn cleanup_ticks() {
    assert!(cleanup_due(1));
    assert!(!cleanup_due(2));
    assert!(cleanup_due(MEMORY_CLEANUP_INTERVAL));
    assert!(cleanup_due(MEMORY_CLEANUP_INTERVAL * 3));
}

#[test]
fn scheduler_memory() {
    let mut s = SchedulerState::new(10);
    assert_eq!(s.start_for(1, 0, 100), 10);
    s.reset(1, 50);
    assert_eq!(s.start_for(1, 40, 100), 50);
    assert_eq!(s.start_for(1, 60, 100), 100);
    s.forget(1);
    assert_eq!(s.start_for(1, 0, 100), 10);
}

#[test]
fn due_one_off_tasks() {
    let mut s = SchedulerState::new(0);
    let tasks = vec![
        task(1, "once", r#"[{"type":"once","at":100}]"#, 0),
        task(2, "once", r#"[{"type":"once","at":500}]"#, 0),
        task(3, "once", r#"[{"type":"once","at":50}]"#, 0),
        task(4, "once", "not json", 0),
    ];
    assert_eq!(s.due_tasks(&tasks, 200), vec![0, 2]);
    assert!(s.last_fired.is_empty());
}

#[test]
fn due_recurring_task_fires_once_per_run() {
    let mut s = SchedulerState::new(0);
    let tasks = vec![task(9, "permanent", r#"[{"type":"hourly","minute":0}]"#, 0)];
    let now: i64 = 1_700_000_000;
    s.reset(9, now - 7200);
    let first = s.due_tasks(&tasks, now);
    assert_eq!(first, vec![0]);
    let fired_at = *s.last_fired.get(&9).unwrap();
    assert!(fired_at <= now && fired_at > now - 7200);
    let second = s.due_tasks(&tasks, fired_at);
    assert!(second.is_empty());
}

#[test]
fn due_task_counts_from_scheduler_start() {
    let now: i64 = 1_700_000_000;
    let mut s = SchedulerState::new(now - 7200);
    let tasks = vec![task(5, "permanent", r#"[{"type":"hourly","minute":0}]"#, 0)];
    assert_eq!(s.due_tasks(&tasks, now), vec![0]);
    let fired_at = *s.last_fired.get(&5).unwrap();
    assert!(fired_at > now - 7200 && fired_at <= now);
    let mut fresh = SchedulerState::new(now);
    assert!(fresh.due_tasks(&tasks, now).is_empty());
    assert!(fresh.last_fired.is_empty());
}

#[test]
fn fire_decides_and_remembers() {
    let mut s = SchedulerState::new(0);
    assert!(s.fire(1, true, Some(90), None, 100));
    assert!(!s.fire(1, true, Some(110), None, 100));
    assert!(!s.fire(1, true, None, Some(5), 100));
    assert!(s.last_fired.is_empty());
    assert!(!s.fire(2, false, None, Some(120), 100));
    assert!(s.last_fired.is_empty());
    assert!(s.fire(2, false, None, Some(95), 100));
    assert_eq!(s.last_fired.get(&2), Some(&95));
    assert!(!s.fire(3, false, Some(1), None, 100));
    assert_eq!(s.last_fired.len(), 1);
}

#[test]
fn next_task_is_the_first_earliest() {
    assert_eq!(pick_next(&vec![None, Some(30), Some(10), Some(10)]), Some(2));
    assert_eq!(pick_next(&vec![None, None]), None);
    assert_eq!(pick_next(&vec![]), None);
}

#[test]
fn daily_activity_fills_missing_days() {
    let rows = vec![
        DailyActivity { day: "2024-05-02".to_string(), messages: 3, tokens: 30 },
        DailyActivity { day: "2024-05-04".to_string(), messages: 1, tokens: 5 },
    ];
    let days = vec!["2024-05-01".to_string(), "2024-05-02".to_string(), "2024-05-04".to_string()];
    let filled = fill_daily_activity(days, &rows);
    assert_eq!(filled.len(), 3);
    assert_eq!((filled[0].messages, filled[0].tokens), (0, 0));
    assert_eq!((filled[1].messages, filled[1].tokens), (3, 30));
    assert_eq!(filled[2].day, "2024-05-04");
    assert_eq!(filled[2].tokens, 5);
}

#[test]
fn seven_days_end_today() {
    assert_eq!(
        recent_days((2024, 3, 2)),
        vec!["2024-02-25", "2024-02-26", "2024-02-27", "2024-02-28", "2024-02-29", "2024-03-01", "2024-03-02"]
    );
    assert_eq!(
        recent_days((2025, 1, 3)),
        vec!["2024-12-28", "2024-12-29", "2024-12-30", "2024-12-31", "2025-01-01", "2025-01-02", "2025-01-03"]
    );
    assert_eq!(recent_days((2023, 3, 1))[5], "2023-02-28");
    assert_eq!(format_date(-5, 1, 9), "-0005-01-09");
    assert_eq!(format_date(12345, 12, 31), "+12345-12-31");
    assert_eq!(format_date(7, 10, 1), "0007-10-01");
}

#[test]
fn fired_one_off_tasks_are_deleted() {
    let tasks = vec![
        task(1, "once", r#"[{"type":"once","at":100}]"#, 0),
        task(2, "permanent", r#"[{"type":"hourly","minute":0}]"#, 0),
        task(3, "once", r#"[{"type":"once","at":50}]"#, 0),
    ];
    assert_eq!(one_offs_to_delete(&tasks, &vec![0, 1, 2]), vec![1, 3]);
    assert_eq!(one_offs_to_delete(&tasks, &vec![1]), Vec::<i64>::new());
    let mut s = SchedulerState::new(0);
    let fired = s.due_tasks(&tasks, 60);
    assert_eq!(one_offs_to_delete(&tasks, &fired), vec![3]);
}
