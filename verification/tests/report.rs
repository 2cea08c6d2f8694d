use perpetuo::detector::StallReport;
use perpetuo::log::{
    convert_stack, log, log_with_details, print_stack, LocalVariable, Severity, StackFrame,
    StallDetails,
};
use perpetuo::report::RateLimiter;
use perpetuo::shmem::ThreadHint;
use perpetuo::trace::{split_traces, Frame, Local, StackTrace};
use perpetuo::watch::{
    after_poll, attach_advice, exit_code, is_permission_failure, sampler_settings, Advice,
    LoopStep, Platform,
};
use perpetuo::discovery::DiscoveryError;

const SEC: u64 = 1_000_000_000;
const MS: u64 = 1_000_000;

fn trace(thread_id: u64, owns_gil: bool) -> StackTrace {
    StackTrace {
        thread_id,
        owns_gil,
        status: "active".to_string(),
        frames: vec![Frame {
            name: format!("work_{thread_id}"),
            filename: "app.py".to_string(),
            line: 10,
            locals: None,
        }],
    }
}

fn report(hint: ThreadHint) -> StallReport {
    StallReport { id: 0, name: "main".to_string(), thread_hint: hint, duration: 250 * MS }
}

#[test]
fn the_first_stall_gets_a_dump() {
    let mut limiter = RateLimiter::new(100);
    assert!(limiter.request(100, 30 * SEC));
    assert_eq!(limiter.next_traceback_at, Some(100 + 30 * SEC));
}

#[test]
fn a_stall_before_the_start_gets_none() {
    let mut limiter = RateLimiter::new(100);
    assert!(!limiter.request(99, 30 * SEC));
    assert_eq!(limiter.next_traceback_at, Some(100));
}

#[test]
fn stalls_within_the_interval_get_no_dump() {
    let mut limiter = RateLimiter::new(0);
    assert!(limiter.request(5 * SEC, 30 * SEC));
    assert!(!limiter.request(6 * SEC, 30 * SEC));
    assert!(!limiter.request(35 * SEC - 1, 30 * SEC));
    assert_eq!(limiter.next_traceback_at, Some(35 * SEC));
    assert!(limiter.request(35 * SEC, 30 * SEC));
    assert_eq!(limiter.next_traceback_at, Some(65 * SEC));
}

#[test]
fn without_an_interval_every_stall_gets_a_dump() {
    let mut limiter = RateLimiter::new(0);
    for t in 0..10 {
        assert!(limiter.request(t, 0));
    }
}

#[test]
fn a_deadline_beyond_the_clock_means_never() {
    let mut limiter = RateLimiter::new(0);
    assert!(limiter.request(u64::MAX - 5, 10));
    assert_eq!(limiter.next_traceback_at, None);
    assert!(!limiter.request(u64::MAX, 10));
    assert!(!limiter.request(u64::MAX, 0));
    assert_eq!(limiter.next_traceback_at, None);
    let mut edge = RateLimiter::new(0);
    assert!(edge.request(u64::MAX - 10, 10));
    assert_eq!(edge.next_traceback_at, Some(u64::MAX));
    assert!(edge.request(u64::MAX, 0));
}

#[test]
fn rate_limiting() {
    let mut limiter = RateLimiter::new(0);
    let mut dumps = 0;
    let mut stalls = 0;
    let mut t = 250 * MS;
    while t <= 90 * SEC {
        stalls += 1;
        if limiter.request(t, 30 * SEC) {
            dumps += 1;
        }
        t += 50 * MS;
    }
    assert_eq!(stalls, 1796);
    assert_eq!(dumps, 3);
    assert!(dumps <= 4);
}

#[test]
fn the_cap_is_reached_by_stalls_on_the_boundaries() {
    let mut limiter = RateLimiter::new(0);
    let mut dumps = 0;
    for t in [0, 1, 29, 30, 31, 59, 60, 89, 90] {
        if limiter.request(t * SEC, 30 * SEC) {
            dumps += 1;
        }
    }
    assert_eq!(dumps, 1 + 90 / 30);
}

#[test]
fn the_global_lock_hint_points_at_the_holders_of_the_lock() {
    let hint = ThreadHint::gil();
    assert!(hint.relevant(&trace(1, true)));
    assert!(!hint.relevant(&trace(1, false)));
    assert!(!hint.relevant(&trace(0, false)));
}

#[test]
fn a_thread_hint_points_at_that_thread() {
    let hint = ThreadHint::from_thread_id(7).unwrap();
    assert!(hint.relevant(&trace(7, false)));
    assert!(hint.relevant(&trace(7, true)));
    assert!(!hint.relevant(&trace(8, true)));
    assert!(!hint.relevant(&trace(0, true)));
}

#[test]
fn traces_are_split_in_order() {
    let traces = vec![trace(1, false), trace(2, true), trace(3, false), trace(4, true)];
    let (relevant, rest) = split_traces(ThreadHint::gil(), &traces);
    assert_eq!(relevant, vec![&traces[1], &traces[3]]);
    assert_eq!(rest, vec![&traces[0], &traces[2]]);
    let (relevant, rest) = split_traces(ThreadHint(3), &traces);
    assert_eq!(relevant, vec![&traces[2]]);
    assert_eq!(rest, vec![&traces[0], &traces[1], &traces[3]]);
    let (relevant, rest) = split_traces(ThreadHint(9), &traces);
    assert!(relevant.is_empty());
    assert_eq!(rest.len(), 4);
    let none: Vec<StackTrace> = Vec::new();
    let (relevant, rest) = split_traces(ThreadHint::gil(), &none);
    assert!(relevant.is_empty() && rest.is_empty());
}

#[test]
fn thread_bound_attribution() {
    let traces = vec![trace(11, true), trace(12, false), trace(13, false)];
    let details = StallDetails::with_traces(&report(ThreadHint(12)), &traces, Vec::new());
    assert_eq!(details.relevant_traces, vec![convert_stack(&traces[1])]);
    assert_eq!(details.relevant_traces[0][0].name, "work_12");
    assert_eq!(details.other_traces, vec![convert_stack(&traces[0]), convert_stack(&traces[2])]);
}

#[test]
fn a_stall_of_the_global_lock_blames_its_holder() {
    let traces = vec![trace(11, false), trace(12, true), trace(13, false)];
    let cmdline = vec!["python".to_string(), "app.py".to_string()];
    let details = StallDetails::with_traces(&report(ThreadHint::gil()), &traces, cmdline.clone());
    assert!(!details.relevant_traces.is_empty());
    assert_eq!(details.relevant_traces, vec![convert_stack(&traces[1])]);
    assert_eq!(details.other_traces.len(), 2);
    assert_eq!(details.length, 250 * MS);
    assert_eq!(details.cmdline, cmdline);
    assert!(!details.rate_limited);
}

#[test]
fn a_rate_limited_stall_has_no_stacks() {
    let cmdline = vec!["python".to_string()];
    let details = StallDetails::rate_limited(&report(ThreadHint::gil()), cmdline.clone());
    assert!(details.rate_limited);
    assert!(details.relevant_traces.is_empty());
    assert!(details.other_traces.is_empty());
    assert_eq!(details.length, 250 * MS);
    assert_eq!(details.cmdline, cmdline);
}

#[test]
fn a_stack_is_shown_outermost_call_first() {
    let sampled = StackTrace {
        thread_id: 1,
        owns_gil: true,
        status: "active".to_string(),
        frames: vec![
            Frame {
                name: "inner".to_string(),
                filename: "lib.py".to_string(),
                line: 30,
                locals: Some(vec![
                    Local { name: "x".to_string(), repr: Some("42".to_string()) },
                    Local { name: "y".to_string(), repr: None },
                ]),
            },
            Frame {
                name: "middle".to_string(),
                filename: "lib.py".to_string(),
                line: 20,
                locals: Some(Vec::new()),
            },
            Frame { name: "main".to_string(), filename: "app.py".to_string(), line: 1, locals: None },
        ],
    };
    assert_eq!(
        convert_stack(&sampled),
        vec![
            StackFrame {
                name: "main".to_string(),
                filename: "app.py".to_string(),
                line: 1,
                locals: None
            },
            StackFrame {
                name: "middle".to_string(),
                filename: "lib.py".to_string(),
                line: 20,
                locals: Some(Vec::new())
            },
            StackFrame {
                name: "inner".to_string(),
                filename: "lib.py".to_string(),
                line: 30,
                locals: Some(vec![
                    LocalVariable { name: "x".to_string(), value: "42".to_string() },
                    LocalVariable { name: "y".to_string(), value: "?".to_string() },
                ]),
            },
        ]
    );
}

#[test]
fn an_empty_stack_stays_empty() {
    let sampled =
        StackTrace { thread_id: 1, owns_gil: false, status: String::new(), frames: Vec::new() };
    assert_eq!(convert_stack(&sampled), Vec::new());
}

#[test]
fn severities_have_two_names() {
    let all = [
        (Severity::Default, "Default", "DEFAULT"),
        (Severity::Debug, "Debug", "DEBUG"),
        (Severity::Info, "Info", "INFO"),
        (Severity::Notice, "Notice", "NOTICE"),
        (Severity::Warning, "Warning", "WARNING"),
        (Severity::Error, "Error", "ERROR"),
    ];
    for (severity, name, json_name) in all {
        assert_eq!(severity.name(), name);
        assert_eq!(severity.json_name(), json_name);
    }
}

#[test]
fn a_record_is_one_line_of_text() {
    let info = vec![
        ("pid".to_string(), "4711".to_string()),
        ("name".to_string(), "main loop".to_string()),
    ];
    assert_eq!(
        log(Severity::Warning, "stall detected", &info),
        "[Warning] stall detected (pid: 4711, name: main loop)"
    );
    assert_eq!(
        log(Severity::Info, "Attempting to monitor pid 4711...", &info[..1].to_vec()),
        "[Info] Attempting to monitor pid 4711... (pid: 4711)"
    );
    assert_eq!(log(Severity::Error, "", &Vec::new()), "[Error]  ()");
}

#[test]
fn the_sampler_is_asked_for_all_details() {
    let with = sampler_settings(true);
    assert!(with.native && with.full_filenames);
    assert_eq!(with.dump_locals, 10);
    let without = sampler_settings(false);
    assert!(without.native && without.full_filenames);
    assert_eq!(without.dump_locals, 0);
}

#[test]
fn advice_depends_on_the_platform() {
    assert_eq!(attach_advice(Platform::MacOs, false, false), Advice::RunAsRoot);
    assert_eq!(attach_advice(Platform::MacOs, false, true), Advice::RunAsRoot);
    assert_eq!(attach_advice(Platform::MacOs, true, true), Advice::Nothing);
    assert_eq!(attach_advice(Platform::Linux, false, true), Advice::AllowTracing);
    assert_eq!(attach_advice(Platform::Linux, true, true), Advice::AllowTracing);
    assert_eq!(attach_advice(Platform::Linux, false, false), Advice::Nothing);
    assert_eq!(attach_advice(Platform::Other, false, true), Advice::Nothing);
}

#[test]
fn only_unreadable_targets_are_permission_failures() {
    assert!(is_permission_failure(&DiscoveryError::PermissionDenied));
    assert!(!is_permission_failure(&DiscoveryError::NotInstrumented));
    assert!(!is_permission_failure(&DiscoveryError::VersionMismatch { found: 999, supported: 0 }));
}

#[test]
fn clean_exit() {
    assert_eq!(after_poll(true, false), LoopStep::TargetExited);
    assert_eq!(exit_code(LoopStep::TargetExited), 0);
}

#[test]
fn a_failed_poll_of_a_live_target_is_fatal() {
    assert_eq!(after_poll(true, true), LoopStep::Fail);
    assert_ne!(exit_code(LoopStep::Fail), 0);
}

#[test]
fn a_good_poll_is_followed_by_the_next() {
    assert_eq!(after_poll(false, true), LoopStep::Continue);
    assert_eq!(after_poll(false, false), LoopStep::Continue);
    assert_eq!(exit_code(LoopStep::Continue), 0);
}

#[test]
fn a_stack_is_printed_frame_by_frame() {
    let stack = vec![
        StackFrame { name: "main".to_string(), filename: "app.py".to_string(), line: 1, locals: None },
        StackFrame {
            name: "inner".to_string(),
            filename: "/srv/lib.py".to_string(),
            line: 4096,
            locals: Some(vec![
                LocalVariable { name: "x".to_string(), value: "42".to_string() },
                LocalVariable { name: "y".to_string(), value: "?".to_string() },
            ]),
        },
        StackFrame {
            name: "native".to_string(),
            filename: "libc.so".to_string(),
            line: -3,
            locals: Some(Vec::new()),
        },
    ];
    let mut lines = vec!["kept".to_string()];
    print_stack(&mut lines, &stack);
    assert_eq!(
        lines,
        vec![
            "kept",
            "        main (app.py:1)",
            "        inner (/srv/lib.py:4096)",
            "            x = 42",
            "            y = ?",
            "        native (libc.so:-3)",
        ]
    );
}

#[test]
fn a_record_without_details_is_its_line() {
    let info = vec![("pid".to_string(), "1".to_string())];
    assert_eq!(
        log_with_details(Severity::Info, "Process 1 has exited", &info, None),
        vec!["[Info] Process 1 has exited (pid: 1)"]
    );
}

#[test]
fn a_rate_limited_stall_is_shown_without_stacks() {
    let cmdline = vec!["python".to_string(), "-m".to_string(), "app".to_string()];
    let details = StallDetails::rate_limited(&report(ThreadHint::gil()), cmdline);
    assert_eq!(
        log_with_details(Severity::Warning, "stall", &Vec::new(), Some(&details)),
        vec![
            "[Warning] stall ()",
            "  Duration (so far): 250 ms",
            "  Command line: python -m app",
            "  -- (no traceback because of rate limiting) --",
        ]
    );
}

#[test]
fn a_stall_is_shown_with_the_stacks_of_both_kinds() {
    let traces = vec![trace(11, false), trace(12, true), trace(13, false)];
    let mut stall = report(ThreadHint::gil());
    stall.duration = 1_234_567_890;
    let details = StallDetails::with_traces(&stall, &traces, vec!["python".to_string()]);
    assert_eq!(
        log_with_details(Severity::Warning, "stall", &Vec::new(), Some(&details)),
        vec![
            "[Warning] stall ()",
            "  Duration (so far): 1234.56789 ms",
            "  Command line: python",
            "  -- This thread is probably responsible --",
            "        work_12 (app.py:10)",
            "  -- Other threads (probably not responsible) --",
            "        work_11 (app.py:10)",
            "        work_13 (app.py:10)",
        ]
    );
}

#[test]
fn a_stall_without_relevant_threads_shows_only_the_others() {
    let traces = vec![trace(11, false)];
    let details = StallDetails::with_traces(&report(ThreadHint(99)), &traces, Vec::new());
    assert_eq!(
        log_with_details(Severity::Warning, "stall", &Vec::new(), Some(&details)),
        vec![
            "[Warning] stall ()",
            "  Duration (so far): 250 ms",
            "  Command line: ",
            "  -- Other threads (probably not responsible) --",
            "        work_11 (app.py:10)",
        ]
    );
}
