use whoosh::config::{
    Composite, CompositeMode, Config, Fan, FanPath, LabelEntry, Sensor,
};
use whoosh::control::State;
use whoosh::curve::Point;
use whoosh::error::Error;

fn base_config() -> Config {
    Config {
        poll_period: 500,
        min_change: 5,
        max_change: 10,
        sensors: Vec::new(),
        composites: Vec::new(),
        curves: Vec::new(),
        fans: Vec::new(),
    }
}

#[test]
fn parse_curves_builds_point_lists() {
    let mut config = base_config();
    config.curves = vec![(
        String::from("quiet"),
        vec![String::from("30C/20%"), String::from("60C/80%")],
    )];
    let parsed = config.parse_curves().unwrap();
    assert_eq!(parsed.len(), 1);
    assert_eq!(parsed[0].0, "quiet");
    assert_eq!(
        parsed[0].1,
        vec![Point { temp: 30000, fan_speed: 51 }, Point { temp: 60000, fan_speed: 204 }]
    );
}

#[test]
fn parse_curves_rejects_bad_points() {
    let mut config = base_config();
    config.curves = vec![(String::from("bad"), vec![String::from("30C-20%")])];
    assert_eq!(config.parse_curves(), Err(Error::InvalidPointSpec));
}

#[test]
fn find_sensors_resolves_by_index() {
    let mut config = base_config();
    config.sensors = vec![(
        String::from("cpu"),
        Sensor::ByNameIndex { hwmon_name: String::from("k10temp"), index: 1 },
    )];
    let names = vec![String::from("nct6775"), String::from("k10temp")];
    let labels = vec![Vec::new(), Vec::new()];
    let inputs = vec![vec![1, 2], vec![1]];
    let paths = config.find_sensors(&names, &labels, &inputs).unwrap();
    assert_eq!(paths.len(), 1);
    assert_eq!(paths[0].0, "cpu");
    assert_eq!(paths[0].1, "/sys/class/hwmon/hwmon1/temp1_input");
}

#[test]
fn find_sensors_resolves_by_label_last_match_wins() {
    let mut config = base_config();
    config.sensors = vec![(
        String::from("cpu"),
        Sensor::ByNameLabel { hwmon_name: String::from("k10temp"), label: String::from("Tctl") },
    )];
    let names = vec![String::from("k10temp")];
    let labels = vec![vec![
        LabelEntry { index: 1, label: String::from("Tctl") },
        LabelEntry { index: 2, label: String::from("Tdie") },
        LabelEntry { index: 3, label: String::from("Tctl") },
    ]];
    let inputs = vec![vec![1, 2, 3]];
    let paths = config.find_sensors(&names, &labels, &inputs).unwrap();
    assert_eq!(paths[0].1, "/sys/class/hwmon/hwmon0/temp3_input");
}

#[test]
fn find_sensors_reports_each_error() {
    let names = vec![String::from("k10temp")];

    let mut config = base_config();
    config.sensors = vec![(
        String::from("cpu"),
        Sensor::ByNameIndex { hwmon_name: String::from("coretemp"), index: 1 },
    )];
    assert_eq!(
        config.find_sensors(&names, &vec![Vec::new()], &vec![vec![1]]),
        Err(Error::HwmonNameNotFound(String::from("coretemp")))
    );

    config.sensors = vec![(
        String::from("cpu"),
        Sensor::ByNameIndex { hwmon_name: String::from("k10temp"), index: 7 },
    )];
    assert_eq!(
        config.find_sensors(&names, &vec![Vec::new()], &vec![vec![1]]),
        Err(Error::HwmonSensorNotFound)
    );

    config.sensors = vec![(
        String::from("cpu"),
        Sensor::ByNameLabel { hwmon_name: String::from("k10temp"), label: String::from("Nope") },
    )];
    let labels = vec![vec![LabelEntry { index: 1, label: String::from("Tctl") }]];
    assert_eq!(
        config.find_sensors(&names, &labels, &vec![vec![1]]),
        Err(Error::HwmonSensorNotFound)
    );

    // A label that matches but whose input file is absent is fatal.
    config.sensors = vec![(
        String::from("cpu"),
        Sensor::ByNameLabel { hwmon_name: String::from("k10temp"), label: String::from("Tctl") },
    )];
    assert_eq!(
        config.find_sensors(&names, &labels, &vec![Vec::new()]),
        Err(Error::LabelWithoutInput)
    );
}

#[test]
fn find_fans_builds_pwm_prefixes() {
    let mut config = base_config();
    config.fans = vec![(
        String::from("case"),
        Fan {
            path: FanPath { hwmon_name: String::from("nct6775"), index: 2 },
            input: String::from("cpu"),
            curve: String::from("quiet"),
        },
    )];
    let names = vec![String::from("nct6775")];
    let fans = config.find_fans(&names).unwrap();
    assert_eq!(fans.len(), 1);
    assert_eq!(fans[0].0, "case");
    assert_eq!(fans[0].1, "/sys/class/hwmon/hwmon0/pwm2");
}

#[test]
fn find_fans_reports_unknown_hwmon() {
    let mut config = base_config();
    config.fans = vec![(
        String::from("case"),
        Fan {
            path: FanPath { hwmon_name: String::from("missing"), index: 2 },
            input: String::from("cpu"),
            curve: String::from("quiet"),
        },
    )];
    let names = vec![String::from("nct6775")];
    assert_eq!(
        config.find_fans(&names),
        Err(Error::HwmonNameNotFound(String::from("missing")))
    );
}

#[test]
fn state_new_builds_everything() {
    let mut config = base_config();
    config.sensors = vec![(
        String::from("cpu"),
        Sensor::ByNameIndex { hwmon_name: String::from("k10temp"), index: 1 },
    )];
    config.composites = vec![(
        String::from("hot"),
        Composite { inputs: vec![String::from("cpu")], mode: CompositeMode::Max },
    )];
    config.curves = vec![(
        String::from("quiet"),
        vec![String::from("30C/20%"), String::from("60C/80%")],
    )];
    config.fans = vec![(
        String::from("case"),
        Fan {
            path: FanPath { hwmon_name: String::from("nct6775"), index: 1 },
            input: String::from("hot"),
            curve: String::from("quiet"),
        },
    )];
    let names = vec![String::from("nct6775"), String::from("k10temp")];
    let labels = vec![Vec::new(), Vec::new()];
    let inputs = vec![Vec::new(), vec![1]];
    let state = State::new(config, &names, &labels, &inputs).unwrap();
    assert_eq!(state.sensor_paths[0].1, "/sys/class/hwmon/hwmon1/temp1_input");
    assert_eq!(state.fans[0].1, "/sys/class/hwmon/hwmon0/pwm1");
    assert_eq!(state.curves[0].1.len(), 2);
    // min 5% and max 10% on the 0-255 scale.
    assert_eq!(state.min_change, 12);
    assert_eq!(state.max_change, 25);
}

#[test]
fn state_new_rejects_unsorted_curves() {
    let mut config = base_config();
    config.curves = vec![(
        String::from("bad"),
        vec![String::from("60C/80%"), String::from("30C/20%")],
    )];
    let names: Vec<String> = Vec::new();
    let err = State::new(config, &names, &Vec::new(), &Vec::new());
    assert!(err.is_err());
    assert_eq!(err.err(), Some(Error::InvalidPointSpec));
}
