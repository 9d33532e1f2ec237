use whoosh::config::{Composite, CompositeMode, Config, Fan, FanPath};
use whoosh::control::{
    fan_plan, pct_to_scale, plan_write, reload_plan, supervisor_step, FanAction, ReloadOutcome,
    State, SupervisorAction,
};
use whoosh::curve::Point;

fn demo_curve() -> Vec<Point> {
    vec![
        Point { temp: 30000, fan_speed: 51 },
        Point { temp: 60000, fan_speed: 204 },
    ]
}

#[test]
fn pct_converts_to_pwm_scale() {
    assert_eq!(pct_to_scale(0), 0);
    assert_eq!(pct_to_scale(5), 12);
    assert_eq!(pct_to_scale(10), 25);
    assert_eq!(pct_to_scale(100), 255);
}

#[test]
fn saturation_low_writes_first_point() {
    // Sensor reads 25000, fan initially 0: target 51, delta 51 > min.
    let curve = demo_curve();
    let temps = vec![(String::from("cpu"), 25000)];
    let curves = vec![(String::from("quiet"), curve)];
    let fan = Fan {
        path: FanPath { hwmon_name: String::from("nct6775"), index: 1 },
        input: String::from("cpu"),
        curve: String::from("quiet"),
    };
    let action = fan_plan(&temps, &curves, &fan, 0, 0, 255);
    assert_eq!(action, FanAction::Write(51));
}

#[test]
fn interior_lerp_writes_target() {
    // Sensor 45000 gives target 127; min 0, max 100% lets it through.
    let curve = demo_curve();
    let temps = vec![(String::from("cpu"), 45000)];
    let curves = vec![(String::from("quiet"), curve)];
    let fan = Fan {
        path: FanPath { hwmon_name: String::from("nct6775"), index: 1 },
        input: String::from("cpu"),
        curve: String::from("quiet"),
    };
    let action = fan_plan(&temps, &curves, &fan, 50, pct_to_scale(0), pct_to_scale(100));
    assert_eq!(action, FanAction::Write(127));
}

#[test]
fn rate_limit_clamps_the_step() {
    // Target 127, current 50, max 10% (= 25): write 75.
    assert_eq!(plan_write(127, 50, 0, pct_to_scale(10)), Some(75));
}

#[test]
fn dead_band_suppresses_small_deltas() {
    // Target 127, current 125, min 5% (= 12): no write.
    assert_eq!(plan_write(127, 125, pct_to_scale(5), 255), None);
    // A delta exactly equal to the dead-band is still too small.
    assert_eq!(plan_write(137, 125, 12, 255), None);
    assert_eq!(plan_write(138, 125, 12, 255), Some(138));
}

#[test]
fn rate_limit_clamps_downward_steps_too() {
    assert_eq!(plan_write(10, 200, 0, 25), Some(175));
    assert_eq!(plan_write(10, 20, 0, 25), Some(10));
}

#[test]
fn missing_input_and_curve_are_skipped() {
    let curves = vec![(String::from("quiet"), demo_curve())];
    let temps = vec![(String::from("cpu"), 45000)];
    let no_input = Fan {
        path: FanPath { hwmon_name: String::from("n"), index: 1 },
        input: String::from("gpu"),
        curve: String::from("quiet"),
    };
    assert_eq!(fan_plan(&temps, &curves, &no_input, 0, 0, 255), FanAction::SkipNoInput);
    let no_curve = Fan {
        path: FanPath { hwmon_name: String::from("n"), index: 1 },
        input: String::from("cpu"),
        curve: String::from("loud"),
    };
    assert_eq!(fan_plan(&temps, &curves, &no_curve, 0, 0, 255), FanAction::SkipNoCurve);
}

#[test]
fn composite_max_drives_the_fan() {
    // Sensors a=40000, b=55000; composite c = Max(a, b); the fan's curve
    // is keyed on c, so the fan runs at the PWM for 55000.
    let config = Config {
        poll_period: 500,
        min_change: 0,
        max_change: 100,
        sensors: Vec::new(),
        composites: vec![(
            String::from("c"),
            Composite {
                inputs: vec![String::from("a"), String::from("b")],
                mode: CompositeMode::Max,
            },
        )],
        curves: Vec::new(),
        fans: vec![(
            String::from("case"),
            Fan {
                path: FanPath { hwmon_name: String::from("nct6775"), index: 1 },
                input: String::from("c"),
                curve: String::from("quiet"),
            },
        )],
    };
    let state = State {
        config,
        sensor_paths: Vec::new(),
        fans: vec![(String::from("case"), String::from("/sys/class/hwmon/hwmon0/pwm1"))],
        curves: vec![(String::from("quiet"), demo_curve())],
        min_change: 0,
        max_change: 255,
    };
    let mut temps = vec![(String::from("a"), 40000), (String::from("b"), 55000)];
    let actions = state.plan_tick(&mut temps, &vec![0]);
    // c = max(40000, 55000) = 55000; lerp gives 51 + 25000*153/30000 = 178.
    assert_eq!(actions, vec![FanAction::Write(178)]);
    // The composite's entry is visible in the table afterwards.
    let c = whoosh::alist::alist_get(&temps, &String::from("c"));
    assert_eq!(c, Some(&55000));
}

#[test]
fn supervisor_prefers_stop_over_reload() {
    assert_eq!(supervisor_step(true, true), SupervisorAction::Exit);
    assert_eq!(supervisor_step(true, false), SupervisorAction::Exit);
    assert_eq!(supervisor_step(false, true), SupervisorAction::AttemptReload);
    assert_eq!(supervisor_step(false, false), SupervisorAction::RunTick);
}

#[test]
fn failed_reload_keeps_previous_state() {
    // A configuration that fails to load leaves the existing state in
    // place; one that loads but fails to build reverts to the previous
    // configuration.
    assert_eq!(reload_plan(false, false), ReloadOutcome::KeepOld);
    assert_eq!(reload_plan(false, true), ReloadOutcome::KeepOld);
    assert_eq!(reload_plan(true, true), ReloadOutcome::UseNew);
    assert_eq!(reload_plan(true, false), ReloadOutcome::RevertToOld);
}
