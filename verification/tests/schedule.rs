use deeper::schedule::{earliest_run, weekly_next_from, days_ahead_exec, earlier, next_overall, next_recurring, once_at, parse_hhmm, roll_forward_exec, weekly_from_exec};

#[test]
fn times_of_day() {
    assert_eq!(parse_hhmm("09:30"), Some((9, 30)));
    assert_eq!(parse_hhmm("9:05:59"), Some((9, 5)));
    assert_eq!(parse_hhmm("24:00"), None);
    assert_eq!(parse_hhmm("12:60"), None);
    assert_eq!(parse_hhmm("1230"), None);
    assert_eq!(parse_hhmm("a:b"), None);
}

#[test]
fn run_arithmetic() {
    assert_eq!(earlier(Some(5), Some(3)), Some(3));
    assert_eq!(earlier(None, Some(3)), Some(3));
    assert_eq!(earlier(None, None), None);
    assert_eq!(roll_forward_exec(100, 100, 3600), 3700);
    assert_eq!(roll_forward_exec(101, 100, 3600), 101);
    assert_eq!(days_ahead_exec(1, 7), 1);
    assert_eq!(days_ahead_exec(3, 3), 0);
    assert_eq!(weekly_from_exec(1000, 2000, 0), 1000 + 7 * 86400);
    assert_eq!(weekly_from_exec(1000, 500, 0), 1000);
    assert_eq!(weekly_from_exec(1000, 2000, 2), 1000 + 2 * 86400);
}

#[test]
fn one_off_times() {
    assert_eq!(once_at(r#"[{"type":"once","at":1700000000}]"#), Some(1700000000));
    assert_eq!(once_at(r#"[{"type":"daily","time":"09:00"},{"type":"once","at":5}]"#), Some(5));
    assert_eq!(once_at(r#"[{"type":"once","at":"2024-01-02T03:04:05Z"}]"#), Some(1704164645));
    assert_eq!(once_at(r#"[{"type":"daily","time":"09:00"}]"#), None);
    assert_eq!(once_at("{}"), None);
}

#[test]
fn recurring_runs_come_after_the_start() {
    let after: i64 = 1_700_000_000;
    let hourly = next_recurring(r#"[{"type":"hourly","minute":15}]"#, after).unwrap();
    assert!(hourly > after && hourly <= after + 3600);
    let daily = next_recurring(r#"[{"type":"daily","time":"09:00"}]"#, after).unwrap();
    assert!(daily > after && daily <= after + 86400 + 3600);
    let weekly = next_recurring(r#"[{"type":"weekly","weekdays":[1,3],"time":"09:00"}]"#, after).unwrap();
    assert!(weekly > after && weekly <= after + 7 * 86400 + 3600);
    assert_eq!(next_recurring(r#"[{"type":"once","at":5}]"#, after), None);
    assert_eq!(next_recurring(r#"[{"type":"hourly"},{"minute":3}]"#, after), None);
    assert_eq!(next_recurring("not json", after), None);
}

#[test]
fn overall_next_run_is_the_earlier() {
    let after: i64 = 1_700_000_000;
    let s = r#"[{"type":"once","at":1700000100},{"type":"daily","time":"09:00"}]"#;
    let daily = next_recurring(s, after).unwrap();
    assert_eq!(next_overall(s, after), Some(daily.min(1_700_000_100)));
    assert_eq!(next_overall("[]", after), None);
}

#[test]
fn weekly_runs_from_today() {
    let day: i64 = 86400;
    // Today is a Wednesday (3); the entry's time today is 1000, now is 2000.
    assert_eq!(weekly_next_from(2000, 3, &vec![1, 3], 1000), Some(1000 + 5 * day));
    assert_eq!(weekly_next_from(500, 3, &vec![1, 3], 1000), Some(1000));
    assert_eq!(weekly_next_from(2000, 3, &vec![5, 0, 9], 1000), Some(1000 + 2 * day));
    assert_eq!(weekly_next_from(2000, 3, &vec![0, 8], 1000), None);
    assert_eq!(weekly_next_from(2000, 7, &vec![7], 1000), Some(1000 + 7 * day));
}

#[test]
fn one_off_schedule_runs_at_its_time() {
    assert_eq!(next_overall(r#"[{"type":"once","at":42}]"#, 1000), Some(42));
    assert_eq!(next_overall(r#"[{"type":"once","at":"bad"},{"type":"once","at":7}]"#, 1000), Some(7));
}

#[test]
fn earliest_of_entries() {
    assert_eq!(earliest_run(&vec![None, Some(30), Some(10), None]), Some(10));
    assert_eq!(earliest_run(&vec![Some(-5), Some(10)]), Some(-5));
    assert_eq!(earliest_run(&vec![None, None]), None);
    assert_eq!(earliest_run(&vec![]), None);
}

#[test]
fn recurring_runs_combine_to_the_earliest() {
    let after: i64 = 1_700_000_000;
    let hourly = next_recurring(r#"[{"type":"hourly","minute":70}]"#, after).unwrap();
    let capped = next_recurring(r#"[{"type":"hourly","minute":59}]"#, after).unwrap();
    assert_eq!(hourly, capped);
    let daily = next_recurring(r#"[{"type":"daily","time":"23:30"}]"#, after).unwrap();
    let both = next_recurring(r#"[{"type":"daily","time":"23:30"},{"type":"hourly","minute":59}]"#, after).unwrap();
    assert_eq!(both, daily.min(capped));
    assert_eq!(next_recurring(r#"[{"type":"daily","time":"25:00"}]"#, after), None);
    assert_eq!(next_recurring(r#"[{"type":"weekly","weekdays":[0,8],"time":"09:00"}]"#, after), None);
    assert!(hourly > after && hourly <= after + 3600);
    assert!(daily > after && daily <= after + 86400);
}

#[test]
fn one_off_text_times_are_read() {
    assert_eq!(once_at(r#"[{"type":"once","at":true},{"type":"once","at":" 2024-01-02T03:04:05Z "}]"#), Some(1704164645));
    assert_eq!(once_at(r#"[{"type":"once","at":"2024-01-02T03:04:05+01:00"}]"#), Some(1704161045));
    assert_eq!(once_at(r#"[{"type":"once","at":"never"},{"type":"once","at":9}]"#), Some(9));
}
