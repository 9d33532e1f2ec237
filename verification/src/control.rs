//! The control loop's decisions: converting the change thresholds from
//! percent to the 0-255 scale, the rate-limited write rule, the per-fan
//! plan for one tick, and the supervisor's reload/stop choices. All I/O
//! — reading sensor files, reading and writing PWM files, sleeping —
//! happens in the caller, which feeds readings in and carries actions
//! out.

use vstd::prelude::*;
use crate::alist::alist_get;
use crate::alist::alist_map;
use crate::arith::lemma_div_bound;
use crate::composite::eval_all;
use crate::composite::eval_composites;
use crate::config::Config;
use crate::config::Fan;
use crate::config::LabelEntry;
use crate::config::all_curves_valid;
use crate::config::find_name;
use crate::config::parsed_points;
use crate::config::sensor_resolution;
use crate::config::spec_pwm_path;
use crate::config::spec_temp_input_path;
use crate::curve::Point;
use crate::curve::curve_wf;
use crate::curve::lemma_lerp_in_range;
use crate::curve::spec_lerp;
use crate::curve::curve_lerp;
use crate::error::Error;
use vstd::arithmetic::div_mod::lemma_div_pos_is_pos;

verus! {

/// How long the outer supervision waits after a failed run before
/// restarting, in milliseconds.
pub const RETRY_MS: u64 = 2000;

/// Converts a percentage of the PWM range to 0-255 units, truncating.
pub fn pct_to_scale(pct: usize) -> (r: u64)
    requires
        pct <= 100,
    ensures
        r == pct * 255 / 100,
        r <= 255,
{
    proof {
        lemma_div_bound(pct * 255, 255, 100);
        lemma_div_pos_is_pos(pct * 255, 100);
    }
    (pct as u64 * 255) / 100
}

/// The rate-limited write rule: no write when the distance from the
/// current speed to the target is within the dead-band, otherwise a
/// write of the target clamped to at most `maxc` away from the current
/// speed.
pub open spec fn spec_plan_write(target: int, current: int, minc: int, maxc: int) -> Option<
    int,
> {
    let d = target - current;
    if -minc <= d <= minc {
        None
    } else if d > 0 {
        Some(current + if d > maxc { maxc } else { d })
    } else {
        Some(current - if -d > maxc { maxc } else { -d })
    }
}

/// Decides whether and what to write for one fan: `None` exactly when
/// the distance from current to target lies within the dead-band; any
/// write moves at most `max_change` away from the current speed, toward
/// the target.
pub fn plan_write(target: u8, current: u8, min_change: u64, max_change: u64) -> (r: Option<u8>)
    requires
        min_change <= 255,
        max_change <= 255,
    ensures
        ({
            let s = spec_plan_write(target as int, current as int, min_change as int,
                max_change as int);
            match r {
                Some(w) => s == Some(w as int),
                None => s is None,
            }
        }),
        r is None <==> -(min_change as int) <= target - current <= min_change as int,
        r matches Some(w) ==> -(max_change as int) <= w - current <= max_change as int,
{
    let t = target as i64;
    let c = current as i64;
    let d = t - c;
    let minc = min_change as i64;
    let maxc = max_change as i64;
    if -minc <= d && d <= minc {
        None
    } else if d > 0 {
        let step = if d > maxc { maxc } else { d };
        Some((c + step) as u8)
    } else {
        let step = if -d > maxc { maxc } else { -d };
        Some((c - step) as u8)
    }
}

/// What one tick does about one fan: skip it because its input or curve
/// is missing (logged by the caller), leave its speed alone, or write a
/// new speed.
#[derive(Clone, Copy, Debug, PartialEq, Eq, Structural)]
pub enum FanAction {
    SkipNoInput,
    SkipNoCurve,
    Keep,
    Write(u8),
}

/// The action one tick takes for a fan, given the settled temperature
/// table, the parsed curves, and the fan's current speed.
pub open spec fn spec_fan_action(
    temps: Map<Seq<char>, i32>,
    curves: Map<Seq<char>, Vec<Point>>,
    fan: Fan,
    current: int,
    minc: int,
    maxc: int,
) -> FanAction {
    if !temps.contains_key(fan.input@) {
        FanAction::SkipNoInput
    } else if !curves.contains_key(fan.curve@) {
        FanAction::SkipNoCurve
    } else {
        let target = spec_lerp(curves[fan.curve@]@, temps[fan.input@] as int);
        match spec_plan_write(target, current, minc, maxc) {
            None => FanAction::Keep,
            Some(w) => FanAction::Write(w as u8),
        }
    }
}

/// Plans the action for one fan: looks its input up in the temperature
/// table and its curve up in the parsed curves, evaluates the curve and
/// applies the rate-limited write rule.
pub fn fan_plan(
    temps: &Vec<(String, i32)>,
    curves: &Vec<(String, Vec<Point>)>,
    fan: &Fan,
    current: u8,
    min_change: u64,
    max_change: u64,
) -> (r: FanAction)
    requires
        forall|i: int| 0 <= i < curves@.len() ==> curve_wf((#[trigger] curves@[i]).1@),
        min_change <= 255,
        max_change <= 255,
    ensures
        r == spec_fan_action(alist_map(temps@), alist_map(curves@), *fan, current as int,
            min_change as int, max_change as int),
{
    let temp = match alist_get(temps, &fan.input) {
        None => {
            return FanAction::SkipNoInput;
        }
        Some(v) => *v,
    };
    let curve = match alist_get(curves, &fan.curve) {
        None => {
            return FanAction::SkipNoCurve;
        }
        Some(c) => c,
    };
    let target = curve_lerp(temp, curve);
    match plan_write(target, current, min_change, max_change) {
        None => FanAction::Keep,
        Some(w) => FanAction::Write(w),
    }
}

/// Rate limit: whatever a tick decides for a fan, a planned write moves
/// the speed at most `maxc` away from the fan's current value.
pub proof fn lemma_tick_rate_limited(
    temps: Map<Seq<char>, i32>,
    curves: Map<Seq<char>, Vec<Point>>,
    fan: Fan,
    current: int,
    minc: int,
    maxc: int,
    w: u8,
)
    requires
        0 <= current <= 255,
        0 <= maxc,
        curves.contains_key(fan.curve@) ==> curve_wf(curves[fan.curve@]@),
        spec_fan_action(temps, curves, fan, current, minc, maxc) == FanAction::Write(w),
    ensures
        -maxc <= w - current <= maxc,
{
    let target = spec_lerp(curves[fan.curve@]@, temps[fan.input@] as int);
    lemma_lerp_in_range(curves[fan.curve@]@, temps[fan.input@] as int);
    let s = spec_plan_write(target, current, minc, maxc);
    let d = target - current;
    assert(s is Some);
    let w2 = s.unwrap();
    if d > 0 {
        assert(w2 == current + if d > maxc { maxc } else { d });
        assert(current <= w2 <= target);
    } else {
        assert(w2 == current - if -d > maxc { maxc } else { -d });
        assert(target <= w2 <= current);
    }
    assert(0 <= w2 <= 255);
    assert(w == w2 as u8);
}

/// Dead-band: when the distance from the fan's current speed to its
/// curve's target lies within `minc`, the tick leaves the fan alone.
pub proof fn lemma_tick_dead_band(
    temps: Map<Seq<char>, i32>,
    curves: Map<Seq<char>, Vec<Point>>,
    fan: Fan,
    current: int,
    minc: int,
    maxc: int,
)
    requires
        temps.contains_key(fan.input@),
        curves.contains_key(fan.curve@),
        -minc <= spec_lerp(curves[fan.curve@]@, temps[fan.input@] as int) - current <= minc,
    ensures
        spec_fan_action(temps, curves, fan, current, minc, maxc) == FanAction::Keep,
{
}

/// Every sensor of the configuration resolves against the machine.
pub open spec fn sensors_resolve(
    c: Config,
    names: Seq<String>,
    labels: Seq<Seq<LabelEntry>>,
    inputs: Seq<Seq<usize>>,
) -> bool {
    forall|i: int| 0 <= i < c.sensors@.len()
        ==> sensor_resolution((#[trigger] c.sensors@[i]).1, names, labels, inputs) is Ok
}

/// Every fan's hwmon name appears among the machine's devices.
pub open spec fn fans_resolve(c: Config, names: Seq<String>) -> bool {
    forall|i: int| 0 <= i < c.fans@.len()
        ==> find_name(names, (#[trigger] c.fans@[i]).1.path.hwmon_name@, 0) < names.len()
}

/// Every configured curve parses to a well-formed curve: non-empty, with
/// strictly increasing temperatures.
pub open spec fn parsed_curves_wf(curves: Seq<(String, Vec<String>)>) -> bool {
    forall|i: int| 0 <= i < curves.len()
        ==> curve_wf(parsed_points((#[trigger] curves[i]).1@))
}

/// Checks a parsed curve's well-formedness: non-empty, strictly
/// increasing temperatures.
pub fn curve_check(c: &Vec<Point>) -> (r: bool)
    ensures
        r == curve_wf(c@),
{
    if c.len() == 0 {
        return false;
    }
    let mut i: usize = 1;
    while i < c.len()
        invariant
            1 <= i <= c@.len(),
            forall|a: int, b: int| 0 <= a < b < i ==> c@[a].temp < c@[b].temp,
        decreases c@.len() - i,
    {
        if c[i - 1].temp >= c[i].temp {
            return false;
        }
        i = i + 1;
    }
    true
}

/// Everything one successful load builds: the configuration itself, the
/// resolved sensor paths, the fans' PWM path prefixes, the parsed
/// curves, and the change thresholds converted to the 0-255 scale.
pub struct State {
    pub config: Config,
    pub sensor_paths: Vec<(String, String)>,
    pub fans: Vec<(String, String)>,
    pub curves: Vec<(String, Vec<Point>)>,
    pub min_change: u64,
    pub max_change: u64,
}

impl State {
    /// Every curve held by the state is well-formed and the thresholds
    /// are on the 0-255 scale.
    pub open spec fn wf(self) -> bool {
        &&& forall|i: int| 0 <= i < self.curves@.len()
            ==> curve_wf((#[trigger] self.curves@[i]).1@)
        &&& self.min_change <= 255
        &&& self.max_change <= 255
    }

    /// Builds the state for a configuration against the machine's hwmon
    /// devices: resolves sensors and fans, parses and validates curves,
    /// converts the thresholds. Succeeds exactly when every sensor and
    /// fan resolves and every curve parses to a well-formed curve.
    pub fn new(
        config: Config,
        hwmon_names: &Vec<String>,
        labels: &Vec<Vec<LabelEntry>>,
        inputs: &Vec<Vec<usize>>,
    ) -> (r: Result<State, Error>)
        requires
            labels@.len() == hwmon_names@.len(),
            inputs@.len() == hwmon_names@.len(),
            config.min_change <= 100,
            config.max_change <= 100,
        ensures
            ({
                let ok = sensors_resolve(config, hwmon_names@,
                    labels@.map_values(|v: Vec<LabelEntry>| v@),
                    inputs@.map_values(|v: Vec<usize>| v@)) && fans_resolve(config,
                    hwmon_names@) && all_curves_valid(config.curves@) && parsed_curves_wf(
                    config.curves@);
                match r {
                    Ok(st) => ok && st.wf() && st.config == config
                        && st.min_change == config.min_change * 255 / 100
                        && st.max_change == config.max_change * 255 / 100
                        && st.curves@.len() == config.curves@.len()
                        && (forall|i: int| 0 <= i < st.curves@.len()
                            ==> (#[trigger] st.curves@[i]).0 == config.curves@[i].0
                                && st.curves@[i].1@ == parsed_points(config.curves@[i].1@))
                        && st.sensor_paths@.len() == config.sensors@.len()
                        && (forall|i: int| 0 <= i < st.sensor_paths@.len()
                            ==> {
                                let res = sensor_resolution(
                                    (#[trigger] config.sensors@[i]).1, hwmon_names@,
                                    labels@.map_values(|v: Vec<LabelEntry>| v@),
                                    inputs@.map_values(|v: Vec<usize>| v@));
                                st.sensor_paths@[i].0 == config.sensors@[i].0
                                    && st.sensor_paths@[i].1@ == spec_temp_input_path(
                                    res.unwrap().0, res.unwrap().1)
                            })
                        && st.fans@.len() == config.fans@.len()
                        && (forall|i: int| 0 <= i < st.fans@.len()
                            ==> {
                                let h = find_name(hwmon_names@,
                                    (#[trigger] config.fans@[i]).1.path.hwmon_name@, 0);
                                st.fans@[i].0 == config.fans@[i].0
                                    && st.fans@[i].1@ == spec_pwm_path(h,
                                    config.fans@[i].1.path.index as int)
                            }),
                    Err(e) => !ok,
                }
            }),
    {
        let ghost glabels = labels@.map_values(|v: Vec<LabelEntry>| v@);
        let ghost ginputs = inputs@.map_values(|v: Vec<usize>| v@);
        let sensor_paths = match config.find_sensors(hwmon_names, labels, inputs) {
            Ok(v) => v,
            Err(e) => {
                proof {
                    let i = choose|i: int| 0 <= i < config.sensors@.len()
                        && sensor_resolution((#[trigger] config.sensors@[i]).1, hwmon_names@,
                            glabels, ginputs) == Err::<(int, int), Error>(e)
                        && forall|j: int| 0 <= j < i
                            ==> sensor_resolution((#[trigger] config.sensors@[j]).1,
                                hwmon_names@, glabels, ginputs) is Ok;
                    assert(!(sensor_resolution(config.sensors@[i].1, hwmon_names@, glabels,
                        ginputs) is Ok));
                }
                return Err(e);
            }
        };
        let fans = match config.find_fans(hwmon_names) {
            Ok(v) => v,
            Err(e) => {
                proof {
                    let i = choose|i: int| 0 <= i < config.fans@.len()
                        && find_name(hwmon_names@, (#[trigger] config.fans@[i]).1.path.hwmon_name@,
                            0) == hwmon_names@.len()
                        && e == Error::HwmonNameNotFound(config.fans@[i].1.path.hwmon_name);
                    assert(!(find_name(hwmon_names@, config.fans@[i].1.path.hwmon_name@, 0)
                        < hwmon_names@.len()));
                }
                return Err(e);
            }
        };
        let curves = match config.parse_curves() {
            Ok(v) => v,
            Err(e) => {
                return Err(e);
            }
        };
        let mut i: usize = 0;
        while i < curves.len()
            invariant
                i <= curves@.len(),
                curves@.len() == config.curves@.len(),
                forall|q: int| 0 <= q < curves@.len()
                    ==> (#[trigger] curves@[q]).1@ == parsed_points(config.curves@[q].1@),
                forall|q: int| 0 <= q < i ==> curve_wf((#[trigger] curves@[q]).1@),
            decreases curves@.len() - i,
        {
            if !curve_check(&curves[i].1) {
                proof {
                    assert(!curve_wf(parsed_points(config.curves@[i as int].1@)));
                }
                return Err(Error::InvalidPointSpec);
            }
            i = i + 1;
        }
        proof {
            assert forall|q: int| 0 <= q < config.curves@.len() implies curve_wf(
                parsed_points((#[trigger] config.curves@[q]).1@)) by {
                assert(curves@[q].1@ == parsed_points(config.curves@[q].1@));
                assert(curve_wf(curves@[q].1@));
            }
        }
        let min_change = pct_to_scale(config.min_change);
        let max_change = pct_to_scale(config.max_change);
        Ok(State { config, sensor_paths, fans, curves, min_change, max_change })
    }

    /// Plans one tick: evaluates the composites against the temperature
    /// table (in place), then decides an action for every configured
    /// fan, given each fan's current speed.
    pub fn plan_tick(&self, temps: &mut Vec<(String, i32)>, speeds: &Vec<u8>) -> (r: Vec<
        FanAction,
    >)
        requires
            self.wf(),
            speeds@.len() == self.config.fans@.len(),
        ensures
            alist_map(final(temps)@) == eval_all(alist_map(old(temps)@),
                self.config.composites@),
            r@.len() == self.config.fans@.len(),
            forall|i: int| 0 <= i < r@.len()
                ==> r@[i] == spec_fan_action(alist_map(final(temps)@), alist_map(self.curves@),
                    (#[trigger] self.config.fans@[i]).1, speeds@[i] as int,
                    self.min_change as int, self.max_change as int),
    {
        eval_composites(temps, &self.config.composites);
        let mut actions: Vec<FanAction> = Vec::new();
        let n = self.config.fans.len();
        let mut i: usize = 0;
        while i < n
            invariant
                i <= n == self.config.fans@.len(),
                speeds@.len() == n,
                self.wf(),
                actions@.len() == i,
                alist_map(temps@) == eval_all(alist_map(old(temps)@),
                    self.config.composites@),
                forall|q: int| 0 <= q < i
                    ==> actions@[q] == spec_fan_action(alist_map(temps@),
                        alist_map(self.curves@), (#[trigger] self.config.fans@[q]).1,
                        speeds@[q] as int, self.min_change as int, self.max_change as int),
            decreases n - i,
        {
            let a = fan_plan(temps, &self.curves, &self.config.fans[i].1, speeds[i],
                self.min_change, self.max_change);
            actions.push(a);
            i = i + 1;
        }
        actions
    }
}

/// What the supervisor does at the top of an iteration.
#[derive(Clone, Copy, Debug, PartialEq, Eq, Structural)]
pub enum SupervisorAction {
    /// The stop flag is set: return, dropping (and thereby restoring)
    /// the fan handles.
    Exit,
    /// The reload flag is set: attempt to load a fresh configuration.
    AttemptReload,
    /// Run one control-loop tick.
    RunTick,
}

/// The supervisor's decision for one iteration: stop wins over reload,
/// reload over a plain tick.
pub fn supervisor_step(stop: bool, reload: bool) -> (r: SupervisorAction)
    ensures
        r == if stop {
            SupervisorAction::Exit
        } else if reload {
            SupervisorAction::AttemptReload
        } else {
            SupervisorAction::RunTick
        },
{
    if stop {
        SupervisorAction::Exit
    } else if reload {
        SupervisorAction::AttemptReload
    } else {
        SupervisorAction::RunTick
    }
}

/// How a reload attempt ends.
#[derive(Clone, Copy, Debug, PartialEq, Eq, Structural)]
pub enum ReloadOutcome {
    /// The new configuration failed to load: keep the existing state.
    KeepOld,
    /// The new configuration loaded and built: use it.
    UseNew,
    /// The new configuration built no state: rebuild from the previous
    /// configuration.
    RevertToOld,
}

/// The reload rule: a configuration that fails to load leaves the
/// existing state in place; one that loads but fails to build sends the
/// supervisor back to the previous configuration.
pub fn reload_plan(load_ok: bool, build_ok: bool) -> (r: ReloadOutcome)
    ensures
        r == if !load_ok {
            ReloadOutcome::KeepOld
        } else if build_ok {
            ReloadOutcome::UseNew
        } else {
            ReloadOutcome::RevertToOld
        },
{
    if !load_ok {
        ReloadOutcome::KeepOld
    } else if build_ok {
        ReloadOutcome::UseNew
    } else {
        ReloadOutcome::RevertToOld
    }
}

} // verus!
