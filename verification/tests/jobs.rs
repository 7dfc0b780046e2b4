//! Job table behaviour: ids, the concurrency ceiling, listing, polling,
//! and the exact report-line texts.

use minishell::builtins::History;
use minishell::job::JobTable;
use minishell::report::{
    create_prompt, fmt_i32, fmt_u64, render_exec_failure, render_job_done, render_job_listing,
    render_job_start, render_redirection_error,
};

#[test]
fn job_ids_start_at_one_and_increase() {
    let mut t = JobTable::new();
    assert_eq!(t.add_job(501, "sleep 1 &".to_string()), Some(1));
    assert_eq!(t.add_job(502, "sleep 2 &".to_string()), Some(2));
    assert_eq!(t.add_job(503, "sleep 3 &".to_string()), Some(3));
}

#[test]
fn eleventh_running_job_is_rejected() {
    let mut t = JobTable::new();
    for k in 0..10 {
        let id = t.add_job(600 + k, format!("job {} &", k));
        assert_eq!(id, Some((k + 1) as usize));
    }
    // The ceiling is reached: the eleventh concurrent add is rejected.
    assert_eq!(t.add_job(777, "one too many &".to_string()), None);
    // The ten existing jobs are unaffected.
    let listing = t.list_running();
    assert_eq!(listing.len(), 10);
    assert!(t.has_active());
}

#[test]
fn listing_reports_running_jobs_verbatim() {
    let mut t = JobTable::new();
    t.add_job(4242, "sleep 5 &".to_string());
    t.add_job(4243, "sleep 6 &".to_string());
    let listing = t.list_running();
    assert_eq!(listing, vec![
        "[1]+ 4242 sleep 5 &".to_string(),
        "[2]+ 4243 sleep 6 &".to_string(),
    ]);
}

#[test]
fn empty_table_has_nothing_active() {
    let t = JobTable::new();
    assert!(!t.has_active());
    assert_eq!(t.list_running().len(), 0);
}

#[test]
fn mark_done_flips_first_matching_running_job() {
    let mut t = JobTable::new();
    t.add_job(71, "sleep 1 &".to_string());
    t.add_job(72, "sleep 2 &".to_string());
    // A pid matching no tracked running job is ignored.
    assert_eq!(t.mark_done(99), None);
    assert!(t.has_active());
    // A matching pid flips exactly that job and yields its completion line.
    assert_eq!(t.mark_done(72), Some("[2] + done sleep 2 &".to_string()));
    assert_eq!(t.list_running(), vec!["[1]+ 71 sleep 1 &".to_string()]);
    // The job is done now, so the same pid is ignored from here on.
    assert_eq!(t.mark_done(72), None);
    assert_eq!(t.mark_done(71), Some("[1] + done sleep 1 &".to_string()));
    assert!(!t.has_active());
    // Ids are not reused after completions.
    assert_eq!(t.add_job(73, "sleep 3 &".to_string()), Some(3));
}

#[test]
fn history_ignores_unicode_blank_lines() {
    let mut h = History::new();
    // A vertical tab and a no-break space are whitespace: the line is blank.
    h.push_valid("\u{0B}");
    h.push_valid("\u{A0} \u{2028}");
    assert_eq!(h.last_three().len(), 0);
}

#[test]
fn poll_without_children_changes_nothing() {
    let mut t = JobTable::new();
    t.add_job(912345, "sleep 9 &".to_string());
    // This process has no children, so the non-blocking reap reports no
    // state change: the job stays running and no completion line appears.
    let lines = t.poll();
    assert_eq!(lines.len(), 0);
    assert!(t.has_active());
    assert_eq!(t.list_running(), vec!["[1]+ 912345 sleep 9 &".to_string()]);
    // Ids keep increasing after a poll.
    assert_eq!(t.add_job(912346, "sleep 10 &".to_string()), Some(2));
}

#[test]
fn decimal_rendering_is_exact() {
    assert_eq!(fmt_u64(0), "0");
    assert_eq!(fmt_u64(7), "7");
    assert_eq!(fmt_u64(10), "10");
    assert_eq!(fmt_u64(90210), "90210");
    assert_eq!(fmt_u64(u64::MAX), "18446744073709551615");
    assert_eq!(fmt_i32(-1), "-1");
    assert_eq!(fmt_i32(i32::MIN), "-2147483648");
    assert_eq!(fmt_i32(i32::MAX), "2147483647");
}

#[test]
fn report_lines_are_verbatim() {
    assert_eq!(render_job_start(1, 4242), "[1] 4242");
    assert_eq!(render_job_listing(3, 99, "sleep 1 &"), "[3]+ 99 sleep 1 &");
    assert_eq!(render_job_done(2, "sleep 1 &"), "[2] + done sleep 1 &");
    assert_eq!(
        render_redirection_error("missing output file after redirection operator"),
        "redirection error: missing output file after redirection operator"
    );
    assert_eq!(render_exec_failure(true, "ignored"), "command not found");
    assert_eq!(
        render_exec_failure(false, "Permission denied (os error 13)"),
        "exec failed: Permission denied (os error 13)"
    );
}

#[test]
fn prompt_is_assembled_verbatim() {
    assert_eq!(create_prompt("u", "box", "/home/u"), "u@box:/home/u>");
    assert_eq!(create_prompt("", "", "unknown"), "@:unknown>");
}
