use whoosh::alist::{alist_get, alist_set};
use whoosh::composite::{combine, eval_composites};
use whoosh::config::{Composite, CompositeMode};
use whoosh::error::Error;
use whoosh::text::{dec_line, fmt_u64, parse_i32, parse_u8};

#[test]
fn parse_i32_reads_sysfs_style_integers() {
    assert_eq!(parse_i32("0"), Some(0));
    assert_eq!(parse_i32("45000"), Some(45000));
    assert_eq!(parse_i32("-12500"), Some(-12500));
    assert_eq!(parse_i32("+7"), Some(7));
    assert_eq!(parse_i32("2147483647"), Some(i32::MAX));
    assert_eq!(parse_i32("-2147483648"), Some(i32::MIN));
}

#[test]
fn parse_i32_rejects_garbage_and_overflow() {
    assert_eq!(parse_i32(""), None);
    assert_eq!(parse_i32("-"), None);
    assert_eq!(parse_i32("+"), None);
    assert_eq!(parse_i32("12a"), None);
    assert_eq!(parse_i32(" 12"), None);
    assert_eq!(parse_i32("2147483648"), None);
    assert_eq!(parse_i32("-2147483649"), None);
    assert_eq!(parse_i32("99999999999999999999"), None);
}

#[test]
fn parse_u8_reads_pwm_values() {
    assert_eq!(parse_u8("0"), Some(0));
    assert_eq!(parse_u8("255"), Some(255));
    assert_eq!(parse_u8("+2"), Some(2));
    assert_eq!(parse_u8("256"), None);
    assert_eq!(parse_u8("-1"), None);
    assert_eq!(parse_u8("-0"), None);
    assert_eq!(parse_u8(""), None);
}

#[test]
fn formatting_round_trips_through_parsing() {
    for n in [0u64, 1, 9, 10, 42, 255, 45000, 2147483647] {
        let s = fmt_u64(n);
        assert_eq!(parse_i32(&s), Some(n as i32).filter(|_| n <= i32::MAX as u64));
    }
    assert_eq!(fmt_u64(0), "0");
    assert_eq!(fmt_u64(1000), "1000");
    assert_eq!(dec_line(1), "1\n");
    assert_eq!(dec_line(204), "204\n");
}

#[test]
fn describe_names_each_error() {
    assert!(Error::HwmonNameNotFound(String::from("x")).describe().contains("hwmon"));
    assert!(Error::HwmonSensorNotFound.describe().contains("sensor"));
    assert!(Error::LabelWithoutInput.describe().contains("label"));
    assert!(Error::InvalidPointSpec.describe().contains("curve"));
    assert!(Error::InvalidReading.describe().contains("reading"));
    assert!(Error::InvalidMode.describe().contains("mode"));
    assert!(Error::InvalidSpeed.describe().contains("speed"));
}

#[test]
fn combine_max_mean_and_meanmax() {
    assert_eq!(combine(&CompositeMode::Max, &vec![40000, 55000]), 55000);
    assert_eq!(combine(&CompositeMode::Mean, &vec![3, 5]), 4);
    assert_eq!(combine(&CompositeMode::Mean, &vec![1, 2]), 1);
    // Truncation toward zero on a negative mean.
    assert_eq!(combine(&CompositeMode::Mean, &vec![-3, -4]), -3);
    // Only values at or above the threshold count...
    assert_eq!(
        combine(&CompositeMode::MeanMax { threshold: 50000 }, &vec![40000, 55000, 65000]),
        60000
    );
    // ...unless none qualifies, in which case all values count.
    assert_eq!(
        combine(&CompositeMode::MeanMax { threshold: 90000 }, &vec![40000, 55000]),
        47500
    );
}

#[test]
fn temperature_table_earliest_entry_wins() {
    let mut temps = vec![(String::from("a"), 1), (String::from("a"), 2)];
    assert_eq!(alist_get(&temps, &String::from("a")), Some(&1));
    alist_set(&mut temps, String::from("a"), 7);
    assert_eq!(alist_get(&temps, &String::from("a")), Some(&7));
    assert_eq!(alist_get(&temps, &String::from("b")), None);
}

#[test]
fn composites_see_earlier_composites() {
    let mut temps = vec![(String::from("a"), 10), (String::from("b"), 30)];
    let composites = vec![
        (
            String::from("m"),
            Composite {
                inputs: vec![String::from("a"), String::from("b")],
                mode: CompositeMode::Mean,
            },
        ),
        (
            String::from("top"),
            Composite {
                inputs: vec![String::from("m"), String::from("a")],
                mode: CompositeMode::Max,
            },
        ),
    ];
    eval_composites(&mut temps, &composites);
    assert_eq!(alist_get(&temps, &String::from("m")), Some(&20));
    assert_eq!(alist_get(&temps, &String::from("top")), Some(&20));
}

#[test]
fn composite_with_no_present_inputs_is_skipped() {
    let mut temps = vec![(String::from("a"), 10)];
    let composites = vec![(
        String::from("ghostly"),
        Composite { inputs: vec![String::from("zz")], mode: CompositeMode::Max },
    )];
    eval_composites(&mut temps, &composites);
    assert_eq!(alist_get(&temps, &String::from("ghostly")), None);
    // Missing inputs are dropped, present ones still count.
    let composites = vec![(
        String::from("partial"),
        Composite {
            inputs: vec![String::from("zz"), String::from("a")],
            mode: CompositeMode::Max,
        },
    )];
    eval_composites(&mut temps, &composites);
    assert_eq!(alist_get(&temps, &String::from("partial")), Some(&10));
}
