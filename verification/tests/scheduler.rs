use chrono::{Duration, Local, TimeZone};
use rolava::history_compression::{
    last_closed_boundary, next_compression_run, summary_date_for_timestamp, summary_period,
    SummaryError,
};
use rolava::local_time::{WallMoment, EARLIEST_TIMESTAMP, LATEST_TIMESTAMP};
use rolava::scheduler::model::{
    calculate_next_run, cron_query, one_time_run, render_task_summaries, repeated_run, validate_task_text,
    ScheduleError, ScheduledTask, TaskText,
};
use rolava::scheduler::service::{
    claim_scheduled_task, create_task, draw_task_id, following_run, trigger_for, update_task,
    wait_seconds, ClaimedTask, PlannedTask, TriggerError,
};
use rolava::scheduler::task_table::TaskTable;

fn task(id: &str, schedule: &str, next_run_at: i64) -> ScheduledTask {
    ScheduledTask {
        id: id.to_string(),
        conversation_id: 1,
        source: "test".to_string(),
        source_conversation_id: "conversation".to_string(),
        conversation_kind: "group".to_string(),
        conversation_title: Some("测试会话".to_string()),
        bot_id: "bot".to_string(),
        title: "测试提醒".to_string(),
        schedule: schedule.to_string(),
        instruction: "发送测试提醒".to_string(),
        next_run_at,
        last_triggered_at: None,
        created_at: 1,
        updated_at: 1,
    }
}

#[test]
fn parses_five_field_cron() {
    let now = Local::now();
    let next = calculate_next_run("cron:0 9 * * *", now.timestamp(), 0).unwrap();
    assert!(next > now.timestamp());
    let run = Local.timestamp_opt(next, 0).unwrap();
    assert_eq!(run.format("%H:%M:%S").to_string(), "09:00:00");
}

#[test]
fn the_next_run_is_looked_for_from_the_given_moment() {
    let query = cron_query("  0 9 * * *  ", 1_750_000_000, 7);
    assert_eq!(query.text, "0 9 * * *");
    assert_eq!(query.seconds, 1_750_000_000);
    assert_eq!(query.nanos, 7);
    let first = calculate_next_run("cron:*/5 * * * *", 1_750_000_000, 0).unwrap();
    assert!(first > 1_750_000_000 && first <= 1_750_000_300);
    let second = calculate_next_run("cron:*/5 * * * *", first, 0).unwrap();
    assert_eq!(second, first + 300);
}

#[test]
fn nothing_runs_at_the_ends_of_the_calendar() {
    for end in [EARLIEST_TIMESTAMP, LATEST_TIMESTAMP] {
        assert_eq!(
            calculate_next_run("cron:0 9 * * *", end, 0),
            Err(ScheduleError::NoOccurrence)
        );
    }
}

#[test]
fn rejects_past_one_time_schedule() {
    let now = Local::now();
    let past = (now - Duration::days(1))
        .format("at:%Y-%m-%d %H:%M:%S")
        .to_string();
    assert!(calculate_next_run(&past, now.timestamp(), 0).is_err());
    assert_eq!(
        calculate_next_run(&past, now.timestamp(), 0),
        Err(ScheduleError::PastTime)
    );
}

#[test]
fn a_single_run_is_taken_as_it_is_written() {
    let now = Local::now();
    let later = now + Duration::days(30);
    let text = later.format("at:%Y-%m-%d %H:%M:%S").to_string();
    assert_eq!(
        calculate_next_run(&text, now.timestamp(), 0),
        Ok(later.timestamp())
    );
}

#[test]
fn expressions_that_say_nothing() {
    let now = Local::now().timestamp();
    let refused = |schedule: &str| calculate_next_run(schedule, now, 0).unwrap_err();
    assert_eq!(refused("every day"), ScheduleError::UnknownForm);
    assert_eq!(refused("at:tomorrow"), ScheduleError::BadTime);
    assert_eq!(refused("cron:* * * *"), ScheduleError::CronFields);
    assert_eq!(refused("cron:a b c d e"), ScheduleError::BadCron);
    assert_eq!(
        refused(&"x".repeat(101)),
        ScheduleError::Length(TaskText::Schedule)
    );
    assert_eq!(refused("  "), ScheduleError::Length(TaskText::Schedule));
}

#[test]
fn the_clock_on_the_wall_may_show_an_hour_twice_or_never() {
    assert_eq!(one_time_run(WallMoment::Once(10), 0, 9, 0), Ok(10));
    assert_eq!(
        one_time_run(WallMoment::Once(9), 0, 9, 0),
        Err(ScheduleError::PastTime)
    );
    assert_eq!(
        one_time_run(WallMoment::Twice(10), 0, 9, 0),
        Err(ScheduleError::AmbiguousTime)
    );
    assert_eq!(
        one_time_run(WallMoment::Never, 0, 9, 0),
        Err(ScheduleError::MissingTime)
    );
    assert_eq!(repeated_run(None, 4), Err(ScheduleError::NoOccurrence));
    assert_eq!(repeated_run(Some(5), 4), Ok(5));
    assert_eq!(repeated_run(Some(4), 4), Err(ScheduleError::NoOccurrence));
}

#[test]
fn texts_of_tasks_have_bounds() {
    assert!(validate_task_text("标题", "说明").is_ok());
    assert_eq!(
        validate_task_text("", "说明"),
        Err(ScheduleError::Length(TaskText::Title))
    );
    assert_eq!(
        validate_task_text("标题", &"a".repeat(1001)),
        Err(ScheduleError::Length(TaskText::Instruction))
    );
    assert_eq!(
        validate_task_text("两\n行", "说明"),
        Err(ScheduleError::TitleHasLines)
    );
}

#[test]
fn due_one_time_task_is_removed_and_routed() {
    let now = Local::now().timestamp();
    let overdue = task("task_A1b2C3d4", "at:2020-01-01 00:00:00", now - 1);
    let following = following_run(&overdue, now, 0).unwrap();
    assert_eq!(following, None);
    assert_eq!(
        claim_scheduled_task(Some(now - 1), now - 1, following),
        ClaimedTask::Removed
    );
    let route = trigger_for(&overdue, now, true).unwrap();
    assert_eq!(route.target.conversation.id, "conversation");
    assert!(route.trigger.user_prompt.contains("task_A1b2C3d4"));
    assert!(route.trigger.user_prompt.contains("当前时间："));
    assert!(route.trigger.user_prompt.contains("程序启动时发现"));
    assert!(route.trigger.user_prompt.contains("自行判断"));

    let normal = task("task_E5f6G7h8", "at:2020-01-01 00:00:00", now - 1);
    let normal_route = trigger_for(&normal, now, false).unwrap();
    assert!(!normal_route.trigger.user_prompt.contains("当前时间："));
    assert!(!normal_route.trigger.user_prompt.contains("延迟说明："));
    assert!(!normal_route.trigger.user_prompt.contains("自行判断"));
}

#[test]
fn tasks_that_wake_nobody() {
    let now = Local::now().timestamp();
    let mut odd = task("task", "cron:0 9 * * *", now);
    odd.conversation_kind = "channel".to_string();
    assert_eq!(
        trigger_for(&odd, now, false).unwrap_err(),
        TriggerError::UnknownKind
    );
    let lost = task("task", "cron:0 9 * * *", i64::MAX);
    assert_eq!(
        trigger_for(&lost, now, false).unwrap_err(),
        TriggerError::BadTime
    );
}

#[test]
fn scheduled_tasks_are_scoped_updated_and_claimed_atomically() {
    let now = Local::now().timestamp();
    let created = create_task("测试任务", "cron:0 9 * * *", "每天检查一次", now, 0).unwrap();
    assert_eq!(created.title, "测试任务");
    assert_eq!(created.schedule, "cron:0 9 * * *");
    let stored = task("task_A1b2C3d4", "cron:0 9 * * *", 100);
    let updated = update_task(
        &stored,
        &Some("新标题".to_string()),
        &Some("cron:30 10 * * *".to_string()),
        &Some("新的任务说明".to_string()),
        now,
        0,
    )
    .unwrap();
    assert_eq!(updated.title, "新标题");
    assert_eq!(updated.schedule, "cron:30 10 * * *");
    assert_eq!(updated.instruction, "新的任务说明");

    let mut tasks = TaskTable::new();
    let mut inserted = task("task_A1b2C3d4", "cron:0 9 * * *", 100);
    inserted.title = "测试任务".to_string();
    inserted.instruction = "每天检查一次".to_string();
    assert!(tasks.insert_scheduled_task(inserted));
    let running = tasks.get_running_scheduled_tasks("test", "conversation");
    assert_eq!(running.len(), 1);
    assert_eq!(running[0].id, "task_A1b2C3d4");
    assert!(tasks
        .get_scheduled_task("test", "other-conversation", "task_A1b2C3d4")
        .is_none());
    let plan = PlannedTask {
        title: "新标题".to_string(),
        schedule: "cron:30 10 * * *".to_string(),
        instruction: "新的任务说明".to_string(),
        next_run_at: 200,
    };
    assert!(tasks.update_scheduled_task("test", "conversation", "task_A1b2C3d4", plan, 5));
    assert!(!tasks.claim_scheduled_task("task_A1b2C3d4", 100, Some(300), 6));
    assert!(tasks.claim_scheduled_task("task_A1b2C3d4", 200, Some(300), 6));
    let changed = tasks
        .get_scheduled_task("test", "conversation", "task_A1b2C3d4")
        .unwrap();
    assert_eq!(changed.title, "新标题");
    assert_eq!(changed.next_run_at, 300);
    assert_eq!(changed.last_triggered_at, Some(200));
    assert_eq!(changed.updated_at, 6);
    assert!(tasks.claim_scheduled_task("task_A1b2C3d4", 300, None, 7));
    assert!(tasks
        .get_running_scheduled_tasks("test", "conversation")
        .is_empty());

    assert_eq!(
        claim_scheduled_task(Some(200), 100, Some(300)),
        ClaimedTask::Refused
    );
    assert_eq!(
        claim_scheduled_task(Some(200), 200, Some(300)),
        ClaimedTask::Kept {
            next_run_at: 300,
            last_triggered_at: 200
        }
    );
    assert_eq!(
        claim_scheduled_task(Some(300), 300, None),
        ClaimedTask::Removed
    );
    assert_eq!(claim_scheduled_task(None, 300, None), ClaimedTask::Refused);
}

#[test]
fn a_conversation_sees_only_its_own_tasks() {
    let mut tasks = TaskTable::new();
    let mut elsewhere = task("task_c", "cron:0 9 * * *", 10);
    elsewhere.source_conversation_id = "other-conversation".to_string();
    assert!(tasks.insert_scheduled_task(task("task_b", "cron:0 9 * * *", 20)));
    assert!(tasks.insert_scheduled_task(elsewhere.clone()));
    assert!(tasks.insert_scheduled_task(task("task_a", "cron:0 9 * * *", 20)));
    assert!(tasks.insert_scheduled_task(task("task_d", "cron:0 9 * * *", 15)));
    assert!(!tasks.insert_scheduled_task(elsewhere.clone()));

    let ids = |list: Vec<ScheduledTask>| -> Vec<String> {
        list.into_iter().map(|task| task.id).collect()
    };
    assert_eq!(
        ids(tasks.get_running_scheduled_tasks("test", "conversation")),
        vec!["task_d", "task_a", "task_b"]
    );
    assert_eq!(ids(tasks.get_running_scheduled_tasks("qq", "conversation")), Vec::<String>::new());
    assert_eq!(ids(tasks.get_due_scheduled_tasks(15)), vec!["task_c", "task_d"]);
    assert_eq!(tasks.next_scheduled_task_timestamp(), Some(10));
    assert_eq!(TaskTable::new().next_scheduled_task_timestamp(), None);

    let plan = PlannedTask {
        title: "新标题".to_string(),
        schedule: "cron:0 1 * * *".to_string(),
        instruction: "新说明".to_string(),
        next_run_at: 1,
    };
    assert!(!tasks.update_scheduled_task("test", "conversation", "task_c", plan, 9));
    assert!(!tasks.delete_scheduled_task("test", "conversation", "task_c"));
    assert_eq!(
        tasks.get_running_scheduled_tasks("test", "other-conversation"),
        vec![elsewhere.clone()]
    );
    assert_eq!(tasks.stored_task("task_c"), Some(&elsewhere));
    assert!(tasks.delete_scheduled_task("test", "other-conversation", "task_c"));
    assert!(!tasks.delete_scheduled_task("test", "other-conversation", "task_c"));
    assert_eq!(tasks.stored_task("task_c"), None);
    assert_eq!(tasks.next_scheduled_task_timestamp(), Some(15));
}

#[test]
fn a_run_is_claimed_once() {
    let mut tasks = TaskTable::new();
    assert!(tasks.insert_scheduled_task(task("task_a", "cron:0 9 * * *", 20)));
    assert!(tasks.claim_scheduled_task("task_a", 20, Some(30), 21));
    assert!(!tasks.claim_scheduled_task("task_a", 20, Some(30), 22));
    assert!(!tasks.claim_scheduled_task("task_b", 30, Some(40), 22));
    assert_eq!(tasks.stored_task("task_a").unwrap().last_triggered_at, Some(20));
}

#[test]
fn ids_of_tasks_are_drawn_a_few_times() {
    let id = draw_task_id(0).unwrap();
    assert!(id.starts_with("task_"));
    assert_eq!(id.len(), 13);
    assert_ne!(id, draw_task_id(0).unwrap());
    assert_eq!(draw_task_id(u32::MAX), None);
}

#[test]
fn the_scheduler_sleeps_until_the_next_run() {
    assert_eq!(wait_seconds(10, 4), 6);
    assert_eq!(wait_seconds(4, 10), 0);
}

#[test]
fn tasks_are_shown_as_json() {
    assert_eq!(render_task_summaries(&vec![]), "[]");
    let mut quoted = task("task_1", "cron:0 9 * * *", 5);
    quoted.title = "说\"好\"".to_string();
    let shown = render_task_summaries(&vec![quoted, task("task_2", "cron:0 9 * * *", 5)]);
    assert_eq!(
        shown,
        "[\n  {\n    \"task_id\": \"task_1\",\n    \"title\": \"说\\\"好\\\"\",\n    \"schedule\": \"cron:0 9 * * *\"\n  },\n  {\n    \"task_id\": \"task_2\",\n    \"title\": \"测试提醒\",\n    \"schedule\": \"cron:0 9 * * *\"\n  }\n]"
    );
    let value: serde_json::Value = serde_json::from_str(&shown).unwrap();
    assert_eq!(shown.lines().count(), 12);
    assert_eq!(value[1]["task_id"], "task_2");
}

#[test]
fn summary_day_changes_at_midnight_but_runs_at_three_am() {
    let before = Local
        .with_ymd_and_hms(2026, 8, 24, 23, 59, 59)
        .single()
        .unwrap()
        .timestamp();
    let boundary = Local
        .with_ymd_and_hms(2026, 8, 25, 0, 0, 0)
        .single()
        .unwrap()
        .timestamp();

    assert_eq!(summary_date_for_timestamp(before).unwrap(), "2026-08-24");
    assert_eq!(summary_date_for_timestamp(boundary).unwrap(), "2026-08-25");
    let run = Local
        .with_ymd_and_hms(2026, 8, 25, 3, 0, 0)
        .single()
        .unwrap()
        .timestamp();
    let (start, end) = summary_period("2026-08-24").unwrap();
    assert_eq!(end, boundary);
    assert_eq!(last_closed_boundary(run - 1).unwrap(), start);
    assert_eq!(last_closed_boundary(run).unwrap(), end);
    assert_eq!(next_compression_run(boundary).unwrap(), run);
    assert_eq!(
        next_compression_run(run).unwrap(),
        Local
            .with_ymd_and_hms(2026, 8, 26, 3, 0, 0)
            .single()
            .unwrap()
            .timestamp()
    );
}

#[test]
fn days_that_cannot_be_summed_up() {
    assert_eq!(summary_period("yesterday"), Err(SummaryError::BadDate));
    assert_eq!(
        summary_date_for_timestamp(i64::MAX),
        Err(SummaryError::BadTimestamp)
    );
}
