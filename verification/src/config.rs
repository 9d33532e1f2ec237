//! The declarative configuration: sensors, composites, curves and fans,
//! each namespace an ordered list of named entries, and the resolution of
//! configured names against the machine's hwmon devices.

use vstd::prelude::*;
use vstd::string::StringExecFns;
use crate::curve::Point;
use crate::curve::parse_point;
use crate::curve::point_of_spec;
use crate::curve::valid_point_spec;
use crate::error::Error;
use crate::text::dec_str;
use crate::text::fmt_u64;

verus! {

/// A temperature source: a hwmon device named by its `name` attribute,
/// with the sensor picked either by its `tempN_label` contents or by the
/// index `N` directly.
pub enum Sensor {
    ByNameLabel { hwmon_name: String, label: String },
    ByNameIndex { hwmon_name: String, index: usize },
}

/// How a composite combines its inputs.
pub enum CompositeMode {
    /// The integer mean of all inputs (truncating division).
    Mean,
    /// The maximum of all inputs.
    Max,
    /// The mean of the inputs at or above the threshold, or of all
    /// inputs when none qualifies.
    MeanMax { threshold: i32 },
}

/// A derived temperature: named inputs (sensors or earlier composites)
/// combined by a mode.
pub struct Composite {
    pub inputs: Vec<String>,
    pub mode: CompositeMode,
}

/// The location of a fan's PWM output within hwmon.
pub struct FanPath {
    pub hwmon_name: String,
    pub index: usize,
}

/// A controlled fan: where its PWM output lives, which temperature entry
/// drives it, and which curve maps that temperature to a duty value.
pub struct Fan {
    pub path: FanPath,
    pub input: String,
    pub curve: String,
}

/// The whole configuration. Each namespace is an ordered list of named
/// entries; order matters for composites, whose inputs may name earlier
/// composites.
pub struct Config {
    pub poll_period: u64,
    pub min_change: usize,
    pub max_change: usize,
    pub sensors: Vec<(String, Sensor)>,
    pub composites: Vec<(String, Composite)>,
    pub curves: Vec<(String, Vec<String>)>,
    pub fans: Vec<(String, Fan)>,
}

/// Every point string of one curve is valid.
pub open spec fn curve_specs_valid(specs: Seq<String>) -> bool {
    forall|j: int| 0 <= j < specs.len() ==> valid_point_spec((#[trigger] specs[j])@)
}

/// The points one curve's strings denote, in order.
pub open spec fn parsed_points(specs: Seq<String>) -> Seq<Point> {
    Seq::new(specs.len(), |j: int| point_of_spec(specs[j]@))
}

/// Every point string of every curve is valid.
pub open spec fn all_curves_valid(curves: Seq<(String, Vec<String>)>) -> bool {
    forall|i: int| 0 <= i < curves.len() ==> curve_specs_valid((#[trigger] curves[i]).1@)
}

/// The index of the first hwmon whose name equals `target`, scanning
/// from `from`; the number of devices when none matches.
pub open spec fn find_name(names: Seq<String>, target: Seq<char>, from: int) -> int
    decreases names.len() - from,
{
    if from < 0 || from >= names.len() {
        names.len() as int
    } else if names[from]@ == target {
        from
    } else {
        find_name(names, target, from + 1)
    }
}

/// The index within `entries` of the last label entry matching `label`,
/// or -1 when none does. The last match wins, mirroring a scan that
/// keeps overwriting its candidate.
pub open spec fn last_label_match(entries: Seq<LabelEntry>, label: Seq<char>) -> int
    decreases entries.len(),
{
    if entries.len() == 0 {
        -1
    } else if entries.last().label@ == label {
        entries.len() - 1
    } else {
        last_label_match(entries.drop_last(), label)
    }
}

/// `v` lists the sensor index `n`.
pub open spec fn seq_contains_usize(v: Seq<usize>, n: int) -> bool {
    exists|j: int| 0 <= j < v.len() && v[j] == n
}

/// One `tempN_label` file found while scanning a hwmon directory: the
/// sensor index `N` from the file's name and the file's trimmed contents.
pub struct LabelEntry {
    pub index: usize,
    pub label: String,
}

/// Where a sensor resolves to, as `(hwmon index, temp index)`, or the
/// error its resolution reports: an unknown hwmon name, a label that
/// never matches or an index whose input file is absent
/// (`HwmonSensorNotFound`), or a matched label whose input file is
/// absent (`LabelWithoutInput`, fatal to the caller).
pub open spec fn sensor_resolution(
    s: Sensor,
    names: Seq<String>,
    labels: Seq<Seq<LabelEntry>>,
    inputs: Seq<Seq<usize>>,
) -> Result<(int, int), Error> {
    match s {
        Sensor::ByNameLabel { hwmon_name, label } => {
            let h = find_name(names, hwmon_name@, 0);
            if h == names.len() {
                Err(Error::HwmonNameNotFound(hwmon_name))
            } else {
                let m = last_label_match(labels[h], label@);
                if m < 0 {
                    Err(Error::HwmonSensorNotFound)
                } else if seq_contains_usize(inputs[h], labels[h][m].index as int) {
                    Ok((h, labels[h][m].index as int))
                } else {
                    Err(Error::LabelWithoutInput)
                }
            }
        }
        Sensor::ByNameIndex { hwmon_name, index } => {
            let h = find_name(names, hwmon_name@, 0);
            if h == names.len() {
                Err(Error::HwmonNameNotFound(hwmon_name))
            } else if seq_contains_usize(inputs[h], index as int) {
                Ok((h, index as int))
            } else {
                Err(Error::HwmonSensorNotFound)
            }
        }
    }
}

/// The sysfs path of a temperature input file.
pub open spec fn spec_temp_input_path(h: int, n: int) -> Seq<char> {
    "/sys/class/hwmon/hwmon"@ + dec_str(h as nat) + "/temp"@ + dec_str(n as nat) + "_input"@
}

/// The sysfs path prefix of a PWM output (the `pwmN` file; the enable
/// file is this prefix followed by `_enable`).
pub open spec fn spec_pwm_path(h: int, n: int) -> Seq<char> {
    "/sys/class/hwmon/hwmon"@ + dec_str(h as nat) + "/pwm"@ + dec_str(n as nat)
}

/// Builds the sysfs path of a temperature input file.
pub fn temp_input_path(h: usize, n: usize) -> (r: String)
    ensures
        r@ == spec_temp_input_path(h as int, n as int),
{
    let mut s = String::from_str("/sys/class/hwmon/hwmon");
    let hs = fmt_u64(h as u64);
    s.append(hs.as_str());
    s.append("/temp");
    let ns = fmt_u64(n as u64);
    s.append(ns.as_str());
    s.append("_input");
    s
}

/// Builds the sysfs path prefix of a PWM output.
pub fn pwm_path(h: usize, n: usize) -> (r: String)
    ensures
        r@ == spec_pwm_path(h as int, n as int),
{
    let mut s = String::from_str("/sys/class/hwmon/hwmon");
    let hs = fmt_u64(h as u64);
    s.append(hs.as_str());
    s.append("/pwm");
    let ns = fmt_u64(n as u64);
    s.append(ns.as_str());
    s
}

/// Finds the first hwmon whose name equals `target`, scanning from
/// `from`.
fn find_name_at(names: &Vec<String>, target: &String, from: usize) -> (r: usize)
    requires
        from <= names@.len(),
    ensures
        r == find_name(names@, target@, from as int),
        from <= r <= names@.len(),
    decreases names@.len() - from,
{
    if from >= names.len() {
        names.len()
    } else if names[from] == *target {
        from
    } else {
        find_name_at(names, target, from + 1)
    }
}

/// Finds the last label entry matching `label`, if any: a later match
/// shadows an earlier one.
fn find_label_match(entries: &Vec<LabelEntry>, label: &String) -> (r: Option<usize>)
    ensures
        match r {
            Some(m) => m < entries@.len() && last_label_match(entries@, label@) == m,
            None => last_label_match(entries@, label@) == -1,
        },
{
    let mut j: usize = entries.len();
    proof {
        assert(entries@.take(j as int) =~= entries@);
    }
    while j > 0
        invariant
            j <= entries@.len(),
            last_label_match(entries@, label@)
                == last_label_match(entries@.take(j as int), label@),
        decreases j,
    {
        proof {
            assert(entries@.take(j as int).last() == entries@[j - 1]);
            assert(entries@.take(j as int).drop_last() =~= entries@.take(j - 1));
        }
        if entries[j - 1].label == *label {
            return Some(j - 1);
        }
        j = j - 1;
    }
    proof {
        assert(entries@.take(0) =~= Seq::<LabelEntry>::empty());
    }
    None
}

/// Whether the directory scan found a `tempN_input` file for index `n`.
fn contains_index(v: &Vec<usize>, n: usize) -> (r: bool)
    ensures
        r == seq_contains_usize(v@, n as int),
{
    let mut i: usize = 0;
    while i < v.len()
        invariant
            i <= v@.len(),
            forall|j: int| 0 <= j < i ==> v@[j] != n,
        decreases v@.len() - i,
    {
        if v[i] == n {
            return true;
        }
        i = i + 1;
    }
    false
}

impl Config {
    /// Parses every configured curve's point strings into points,
    /// rejecting the whole configuration on the first invalid point.
    pub fn parse_curves(&self) -> (r: Result<Vec<(String, Vec<Point>)>, Error>)
        ensures
            match r {
                Ok(list) => all_curves_valid(self.curves@) && list@.len() == self.curves@.len()
                    && forall|i: int| 0 <= i < list@.len()
                        ==> (#[trigger] list@[i]).0 == self.curves@[i].0
                            && list@[i].1@ == parsed_points(self.curves@[i].1@),
                Err(e) => !all_curves_valid(self.curves@) && e == Error::InvalidPointSpec,
            },
    {
        let mut ret: Vec<(String, Vec<Point>)> = Vec::new();
        let n = self.curves.len();
        let mut i: usize = 0;
        while i < n
            invariant
                n == self.curves@.len(),
                i <= n,
                ret@.len() == i,
                forall|q: int| 0 <= q < i ==> curve_specs_valid((#[trigger] self.curves@[q]).1@),
                forall|q: int| 0 <= q < i ==> (#[trigger] ret@[q]).0 == self.curves@[q].0
                    && ret@[q].1@ == parsed_points(self.curves@[q].1@),
            decreases n - i,
        {
            let specs = &self.curves[i].1;
            let mut pts: Vec<Point> = Vec::new();
            let mut j: usize = 0;
            while j < specs.len()
                invariant
                    specs == &self.curves@[i as int].1,
                    i < n == self.curves@.len(),
                    j <= specs@.len(),
                    pts@.len() == j,
                    forall|q: int| 0 <= q < j ==> valid_point_spec((#[trigger] specs@[q])@)
                        && pts@[q] == point_of_spec(specs@[q]@),
                decreases specs@.len() - j,
            {
                match parse_point(specs[j].as_str()) {
                    Ok(pt) => {
                        pts.push(pt);
                    }
                    Err(e) => {
                        return Err(e);
                    }
                }
                j = j + 1;
            }
            proof {
                assert(pts@ =~= parsed_points(specs@));
            }
            let name = self.curves[i].0.clone();
            ret.push((name, pts));
            i = i + 1;
        }
        Ok(ret)
    }

    /// Resolves every configured sensor to the sysfs path of its
    /// temperature input, against the enumerated hwmon names, the label
    /// files each device carries and the input files each device offers.
    /// Fails with the first sensor's resolution error, in configuration
    /// order.
    pub fn find_sensors(
        &self,
        hwmon_names: &Vec<String>,
        labels: &Vec<Vec<LabelEntry>>,
        inputs: &Vec<Vec<usize>>,
    ) -> (r: Result<Vec<(String, String)>, Error>)
        requires
            labels@.len() == hwmon_names@.len(),
            inputs@.len() == hwmon_names@.len(),
        ensures
            match r {
                Ok(paths) => paths@.len() == self.sensors@.len()
                    && forall|i: int| 0 <= i < paths@.len()
                        ==> {
                            let res = sensor_resolution((#[trigger] self.sensors@[i]).1,
                                hwmon_names@, labels@.map_values(|v: Vec<LabelEntry>| v@),
                                inputs@.map_values(|v: Vec<usize>| v@));
                            &&& res is Ok
                            &&& paths@[i].0 == self.sensors@[i].0
                            &&& paths@[i].1@ == spec_temp_input_path(res.unwrap().0,
                                res.unwrap().1)
                        },
                Err(e) => exists|i: int| 0 <= i < self.sensors@.len()
                    && sensor_resolution((#[trigger] self.sensors@[i]).1, hwmon_names@,
                        labels@.map_values(|v: Vec<LabelEntry>| v@),
                        inputs@.map_values(|v: Vec<usize>| v@)) == Err::<(int, int), Error>(e)
                    && forall|j: int| 0 <= j < i
                        ==> sensor_resolution((#[trigger] self.sensors@[j]).1, hwmon_names@,
                            labels@.map_values(|v: Vec<LabelEntry>| v@),
                            inputs@.map_values(|v: Vec<usize>| v@)) is Ok,
            },
    {
        let ghost glabels = labels@.map_values(|v: Vec<LabelEntry>| v@);
        let ghost ginputs = inputs@.map_values(|v: Vec<usize>| v@);
        let mut paths: Vec<(String, String)> = Vec::new();
        let n = self.sensors.len();
        let mut i: usize = 0;
        while i < n
            invariant
                n == self.sensors@.len(),
                i <= n,
                paths@.len() == i,
                labels@.len() == hwmon_names@.len(),
                inputs@.len() == hwmon_names@.len(),
                glabels == labels@.map_values(|v: Vec<LabelEntry>| v@),
                ginputs == inputs@.map_values(|v: Vec<usize>| v@),
                forall|q: int| 0 <= q < i
                    ==> {
                        let res = sensor_resolution((#[trigger] self.sensors@[q]).1,
                            hwmon_names@, glabels, ginputs);
                        &&& res is Ok
                        &&& paths@[q].0 == self.sensors@[q].0
                        &&& paths@[q].1@ == spec_temp_input_path(res.unwrap().0, res.unwrap().1)
                    },
            decreases n - i,
        {
            let sensor = &self.sensors[i].1;
            match sensor {
                Sensor::ByNameLabel { hwmon_name, label } => {
                    let h = find_name_at(hwmon_names, hwmon_name, 0);
                    if h == hwmon_names.len() {
                        return Err(Error::HwmonNameNotFound(hwmon_name.clone()));
                    }
                    match find_label_match(&labels[h], label) {
                        None => {
                            return Err(Error::HwmonSensorNotFound);
                        }
                        Some(m) => {
                            let idx = labels[h][m].index;
                            if !contains_index(&inputs[h], idx) {
                                return Err(Error::LabelWithoutInput);
                            }
                            let path = temp_input_path(h, idx);
                            let name = self.sensors[i].0.clone();
                            paths.push((name, path));
                        }
                    }
                }
                Sensor::ByNameIndex { hwmon_name, index } => {
                    let h = find_name_at(hwmon_names, hwmon_name, 0);
                    if h == hwmon_names.len() {
                        return Err(Error::HwmonNameNotFound(hwmon_name.clone()));
                    }
                    if !contains_index(&inputs[h], *index) {
                        return Err(Error::HwmonSensorNotFound);
                    }
                    let path = temp_input_path(h, *index);
                    let name = self.sensors[i].0.clone();
                    paths.push((name, path));
                }
            }
            i = i + 1;
        }
        Ok(paths)
    }

    /// Resolves every configured fan to the sysfs path prefix of its PWM
    /// output. Fails with `HwmonNameNotFound` for the first fan, in
    /// configuration order, whose hwmon name is unknown.
    pub fn find_fans(&self, hwmon_names: &Vec<String>) -> (r: Result<Vec<(String, String)>,
        Error>)
        ensures
            match r {
                Ok(list) => list@.len() == self.fans@.len()
                    && forall|i: int| 0 <= i < list@.len()
                        ==> {
                            let h = find_name(hwmon_names@,
                                (#[trigger] self.fans@[i]).1.path.hwmon_name@, 0);
                            &&& h < hwmon_names@.len()
                            &&& list@[i].0 == self.fans@[i].0
                            &&& list@[i].1@ == spec_pwm_path(h,
                                self.fans@[i].1.path.index as int)
                        },
                Err(e) => exists|i: int| 0 <= i < self.fans@.len()
                    && find_name(hwmon_names@, (#[trigger] self.fans@[i]).1.path.hwmon_name@, 0)
                        == hwmon_names@.len()
                    && e == Error::HwmonNameNotFound(self.fans@[i].1.path.hwmon_name)
                    && forall|j: int| 0 <= j < i
                        ==> find_name(hwmon_names@,
                            (#[trigger] self.fans@[j]).1.path.hwmon_name@, 0)
                            < hwmon_names@.len(),
            },
    {
        let mut list: Vec<(String, String)> = Vec::new();
        let n = self.fans.len();
        let mut i: usize = 0;
        while i < n
            invariant
                n == self.fans@.len(),
                i <= n,
                list@.len() == i,
                forall|q: int| 0 <= q < i
                    ==> {
                        let h = find_name(hwmon_names@,
                            (#[trigger] self.fans@[q]).1.path.hwmon_name@, 0);
                        &&& h < hwmon_names@.len()
                        &&& list@[q].0 == self.fans@[q].0
                        &&& list@[q].1@ == spec_pwm_path(h, self.fans@[q].1.path.index as int)
                    },
            decreases n - i,
        {
            let fan = &self.fans[i].1;
            let h = find_name_at(hwmon_names, &fan.path.hwmon_name, 0);
            if h == hwmon_names.len() {
                return Err(Error::HwmonNameNotFound(fan.path.hwmon_name.clone()));
            }
            let path = pwm_path(h, fan.path.index);
            let name = self.fans[i].0.clone();
            list.push((name, path));
            i = i + 1;
        }
        Ok(list)
    }
}

} // verus!
