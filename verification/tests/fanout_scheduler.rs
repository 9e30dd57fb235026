use runx::scheduler::{
    configured_max_concurrency, scheduled_step, FanoutSchedule, FanoutScheduler,
    ParallelFanoutSchedule, ScheduledFanoutStep, DEFAULT_MAX_FANOUT_CONCURRENCY,
    HARD_MAX_FANOUT_CONCURRENCY, RUNX_MAX_FANOUT_CONCURRENCY_ENV,
};

#[test]
fn defaults_to_serial_fanout() {
    assert_eq!(
        configured_max_concurrency(&Vec::new()),
        DEFAULT_MAX_FANOUT_CONCURRENCY
    );
}

#[test]
fn clamps_configured_fanout_concurrency() {
    let env = vec![(
        RUNX_MAX_FANOUT_CONCURRENCY_ENV.to_owned(),
        "100000".to_owned(),
    )];
    assert_eq!(configured_max_concurrency(&env), HARD_MAX_FANOUT_CONCURRENCY);
}

#[test]
fn keeps_mixed_capability_fanout_serial() {
    let scheduler = FanoutScheduler {
        max_concurrency: HARD_MAX_FANOUT_CONCURRENCY,
    };
    let steps = vec![
        ScheduledFanoutStep {
            step_id: "a",
            attempt: 1,
            parallel_limit: Some(HARD_MAX_FANOUT_CONCURRENCY),
        },
        ScheduledFanoutStep {
            step_id: "b",
            attempt: 1,
            parallel_limit: None,
        },
    ];
    assert!(matches!(scheduler.schedule(steps), FanoutSchedule::Serial(_)));
}

#[test]
fn clamps_parallel_schedule_to_the_narrowest_adapter_limit() {
    let scheduler = FanoutScheduler {
        max_concurrency: HARD_MAX_FANOUT_CONCURRENCY,
    };
    let schedule = scheduler.schedule(vec![
        ScheduledFanoutStep {
            step_id: "a",
            attempt: 1,
            parallel_limit: Some(4),
        },
        ScheduledFanoutStep {
            step_id: "b",
            attempt: 1,
            parallel_limit: Some(8),
        },
    ]);
    assert!(matches!(
        schedule,
        FanoutSchedule::Parallel(ParallelFanoutSchedule {
            max_concurrency: 4,
            ..
        })
    ));
}

#[test]
fn configured_values_outside_the_grammar_fall_back_to_the_default() {
    for value in ["0", "", "-3", " 4", "4 ", "abc", "99999999999999999999999"] {
        let env = vec![(RUNX_MAX_FANOUT_CONCURRENCY_ENV.to_owned(), value.to_owned())];
        assert_eq!(configured_max_concurrency(&env), 1, "value {value:?}");
    }
    let env = vec![
        ("OTHER".to_owned(), "9".to_owned()),
        (RUNX_MAX_FANOUT_CONCURRENCY_ENV.to_owned(), "+7".to_owned()),
    ];
    assert_eq!(configured_max_concurrency(&env), 7);
    assert_eq!(FanoutScheduler::from_env(&env).max_concurrency, 7);
}

#[test]
fn a_single_step_or_a_serial_scheduler_stays_serial() {
    let step = scheduled_step("only", 2, Some(8));
    assert_eq!(step.attempt, 2);
    let parallel = FanoutScheduler { max_concurrency: 8 };
    assert_eq!(
        parallel.schedule(vec![step]),
        FanoutSchedule::Serial(vec![step])
    );
    let serial = FanoutScheduler { max_concurrency: 1 };
    let steps = vec![step, scheduled_step("other", 1, Some(8))];
    assert_eq!(serial.schedule(steps.clone()), FanoutSchedule::Serial(steps));
    let wide = FanoutScheduler { max_concurrency: 3 };
    let steps = vec![step, scheduled_step("other", 1, Some(8))];
    assert_eq!(
        wide.schedule(steps.clone()),
        FanoutSchedule::Parallel(ParallelFanoutSchedule {
            steps,
            max_concurrency: 3
        })
    );
}

#[test]
fn the_largest_usize_is_clamped_and_one_more_overflows() {
    let with = |v: &str| vec![(RUNX_MAX_FANOUT_CONCURRENCY_ENV.to_owned(), v.to_owned())];
    assert_eq!(configured_max_concurrency(&with("18446744073709551615")), HARD_MAX_FANOUT_CONCURRENCY);
    assert_eq!(configured_max_concurrency(&with("18446744073709551616")), 1);
    assert_eq!(configured_max_concurrency(&with("+")), 1);
    assert_eq!(configured_max_concurrency(&with("0012")), 12);
}
