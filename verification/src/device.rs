//! Device management on a snapshot of the host's device lists.
//!
//! [`DeviceManager`] lists output and input devices and resolves a preferred
//! device name; [`DeviceWatcher`] turns successive snapshots into plug/unplug
//! events.

use crate::error::AudioError;
use crate::events::{AudioEvent, DeviceInfo};
use crate::text::same_text;
use vstd::prelude::*;

verus! {

/// The system default device of one direction.
pub struct DefaultDevice {
    /// Its name, where the host tells it.
    pub name: Option<String>,
    /// Its sample rate and channel count, where the host tells them.
    pub format: Option<(u32, u16)>,
}

/// What the host says of one direction, output or input.
pub struct HostDevices {
    /// The names of the devices in the host's order, `None` for a device whose
    /// name the host does not tell; `None` where the host cannot list them.
    pub listed: Option<Vec<Option<String>>>,
    /// The system default device, if there is one.
    pub default_device: Option<DefaultDevice>,
}

/// The device that a request was resolved to.
#[derive(Clone, Copy, Debug, PartialEq, Eq, Structural)]
pub enum DeviceChoice {
    /// The device at this place of the host's list.
    Listed(usize),
    /// The system default device.
    Default,
}

/// The names that are told, in order.
pub open spec fn told(names: Seq<Option<String>>) -> Seq<String>
    decreases names.len(),
{
    if names.len() == 0 {
        Seq::empty()
    } else {
        match names.last() {
            Some(name) => told(names.drop_last()).push(name),
            None => told(names.drop_last()),
        }
    }
}

/// Whether device `i` of `names` is the first one named `name`.
pub open spec fn first_named(names: Seq<Option<String>>, name: Seq<char>, i: int) -> bool {
    &&& 0 <= i < names.len()
    &&& is_named(names[i], name)
    &&& forall|k: int| 0 <= k < i ==> !is_named(#[trigger] names[k], name)
}

pub open spec fn is_named(device: Option<String>, name: Seq<char>) -> bool {
    device matches Some(n) && n@ == name
}

impl HostDevices {
    /// The names of the host's list, none where there is no list.
    pub open spec fn names(self) -> Seq<Option<String>> {
        match self.listed {
            Some(names) => names@,
            None => Seq::empty(),
        }
    }

    /// The name of the default device; empty where there is none.
    pub open spec fn default_name(self) -> Seq<char> {
        match self.default_device {
            Some(DefaultDevice { name: Some(name), .. }) => name@,
            _ => Seq::empty(),
        }
    }

    /// Whether a device is named `name`.
    pub open spec fn has(self, name: Seq<char>) -> bool {
        exists|i: int| 0 <= i < self.names().len() && is_named(#[trigger] self.names()[i], name)
    }

    fn default_text(&self) -> (r: String)
        ensures
            r@ == self.default_name(),
    {
        match &self.default_device {
            Some(device) => match &device.name {
                Some(name) => name.clone(),
                None => String::new(),
            },
            None => String::new(),
        }
    }

    /// Lists the devices whose name is told.
    fn infos(&self) -> (r: Vec<DeviceInfo>)
        ensures
            lists(*self, r@),
    {
        let default_name = self.default_text();
        let mut r: Vec<DeviceInfo> = Vec::new();
        if let Some(names) = &self.listed {
            let mut i: usize = 0;
            assert(names@.take(0) =~= Seq::<Option<String>>::empty());
            while i < names.len()
                invariant
                    i <= names@.len(),
                    default_name@ == self.default_name(),
                    r@.len() == told(names@.take(i as int)).len(),
                    forall|k: int|
                        0 <= k < r@.len() ==> (#[trigger] r@[k]).name == told(names@.take(i as int))[k]
                            && r@[k].is_default == (r@[k].name@ == self.default_name()),
                decreases names@.len() - i,
            {
                assert(names@.take(i + 1).drop_last() =~= names@.take(i as int));
                if let Some(name) = &names[i] {
                    let is_default: bool = same_text(name.as_str(), default_name.as_str());
                    r.push(DeviceInfo { name: name.clone(), is_default });
                }
                i = i + 1;
            }
            assert(names@.take(names@.len() as int) =~= names@);
        }
        r
    }

    /// The first device named `name`.
    fn find(&self, name: &str) -> (r: Option<usize>)
        ensures
            match r {
                Some(i) => first_named(self.names(), name@, i as int),
                None => !self.has(name@),
            },
    {
        if let Some(names) = &self.listed {
            let mut i: usize = 0;
            while i < names.len()
                invariant
                    i <= names@.len(),
                    names@ == self.names(),
                    forall|k: int| 0 <= k < i ==> !is_named(#[trigger] names@[k], name@),
                decreases names@.len() - i,
            {
                if let Some(n) = &names[i] {
                    if same_text(n.as_str(), name) {
                        return Some(i);
                    }
                }
                i = i + 1;
            }
        }
        None
    }

    fn default_choice(&self) -> (r: Result<DeviceChoice, AudioError>)
        ensures
            r == default_of(*self),
    {
        if self.default_device.is_some() {
            Ok(DeviceChoice::Default)
        } else {
            Err(AudioError::NoDevice)
        }
    }
}

/// The system default device of `host`, or the error that there is none.
pub open spec fn default_of(host: HostDevices) -> Result<DeviceChoice, AudioError> {
    if host.default_device is Some {
        Ok(DeviceChoice::Default)
    } else {
        Err(AudioError::NoDevice)
    }
}

/// Whether `infos` are the devices of `host` whose name is told, in order, with
/// the default device marked by its name.
pub open spec fn lists(host: HostDevices, infos: Seq<DeviceInfo>) -> bool {
    &&& infos.len() == told(host.names()).len()
    &&& forall|i: int|
        0 <= i < infos.len() ==> (#[trigger] infos[i]).name == told(host.names())[i] && infos[i].is_default == (
        infos[i].name@ == host.default_name())
}

/// The devices of a host.
pub struct DeviceManager {
    pub outputs: HostDevices,
    pub inputs: HostDevices,
}

impl DeviceManager {
    pub fn new(outputs: HostDevices, inputs: HostDevices) -> (r: Self)
        ensures
            r.outputs == outputs,
            r.inputs == inputs,
    {
        DeviceManager { outputs, inputs }
    }

    /// List all available output devices.
    pub fn output_devices(&self) -> (r: Vec<DeviceInfo>)
        ensures
            lists(self.outputs, r@),
    {
        self.outputs.infos()
    }

    /// Resolve an output device by optional name, falling back to the system
    /// default where no name is given.
    ///
    /// # Errors
    ///
    /// Returns [`AudioError::NoDevice`] if there is no default output device,
    /// or [`AudioError::DeviceNotFound`] if a name was specified but not found.
    pub fn resolve_output(&self, preferred: Option<&str>) -> (r: Result<DeviceChoice, AudioError>)
        ensures
            match preferred {
                Some(name) => if self.outputs.has(name@) {
                    r matches Ok(DeviceChoice::Listed(i)) && first_named(self.outputs.names(), name@, i as int)
                } else {
                    r matches Err(AudioError::DeviceNotFound { name: missing }) && missing@ == name@
                },
                None => r == default_of(self.outputs),
            },
    {
        match preferred {
            Some(name) => match self.outputs.find(name) {
                Some(i) => Ok(DeviceChoice::Listed(i)),
                None => Err(AudioError::DeviceNotFound { name: name.to_owned() }),
            },
            None => self.outputs.default_choice(),
        }
    }

    /// Resolve the output device of an engine: the named one, or the system
    /// default where no name is given or the named device is not found.
    pub fn engine_output(&self, preferred: Option<&str>) -> (r: Result<DeviceChoice, AudioError>)
        ensures
            match preferred {
                Some(name) if self.outputs.has(name@) => r matches Ok(DeviceChoice::Listed(i)) && first_named(
                    self.outputs.names(),
                    name@,
                    i as int,
                ),
                _ => r == default_of(self.outputs),
            },
    {
        match self.resolve_output(preferred) {
            Ok(choice) => Ok(choice),
            Err(_) => self.resolve_output(None),
        }
    }

    /// List all available input (capture) devices.
    pub fn input_devices(&self) -> (r: Vec<DeviceInfo>)
        ensures
            lists(self.inputs, r@),
    {
        self.inputs.infos()
    }

    /// Resolve an input device by optional name, falling back to the system
    /// default.
    pub fn resolve_input(&self, preferred: Option<&str>) -> (r: Result<DeviceChoice, AudioError>)
        ensures
            match preferred {
                Some(name) if self.inputs.has(name@) => r matches Ok(DeviceChoice::Listed(i)) && first_named(
                    self.inputs.names(),
                    name@,
                    i as int,
                ),
                _ => r == default_of(self.inputs),
            },
    {
        if let Some(name) = preferred {
            if let Some(i) = self.inputs.find(name) {
                return Ok(DeviceChoice::Listed(i));
            }
        }
        self.inputs.default_choice()
    }

    /// Return `(sample_rate, channels)` of the default output device.
    /// Returns `(0, 0)` if no device is available.
    pub fn default_output_format(&self) -> (r: (u32, u16))
        ensures
            r == match self.outputs.default_device {
                Some(DefaultDevice { format: Some(format), .. }) => format,
                _ => (0u32, 0u16),
            },
    {
        match &self.outputs.default_device {
            Some(device) => match device.format {
                Some(format) => format,
                None => (0, 0),
            },
            None => (0, 0),
        }
    }
}

// ── Device watcher ────────────────────────────────────────────────────────────

/// What the watcher saw last.
pub struct DeviceWatcher {
    pub last_devices: Vec<DeviceInfo>,
    pub last_default_name: String,
}

/// What one poll calls for.
pub struct WatchOutcome {
    /// The events to send, in order.
    pub events: Vec<AudioEvent>,
    /// Whether the stream is to be rebuilt on the new default device.
    pub revise_stream: bool,
}

/// Whether a device of `devices` is named `name`.
pub open spec fn is_present(devices: Seq<DeviceInfo>, name: Seq<char>) -> bool {
    exists|i: int| 0 <= i < devices.len() && (#[trigger] devices[i]).name@ == name
}

/// The devices of `devices` whose names are not among those of `others`.
pub open spec fn missing_from(devices: Seq<DeviceInfo>, others: Seq<DeviceInfo>) -> Seq<DeviceInfo> {
    devices.filter(|d: DeviceInfo| !is_present(others, d.name@))
}

/// The events for a change of the devices from `last` to `devices`: one for each
/// device that has come, then one for each device that has gone.
pub open spec fn change_events(last: Seq<DeviceInfo>, devices: Seq<DeviceInfo>) -> Seq<AudioEvent> {
    missing_from(devices, last).map_values(|d: DeviceInfo| AudioEvent::DeviceAdded(d)) + missing_from(
        last,
        devices,
    ).map_values(|d: DeviceInfo| AudioEvent::DeviceRemoved(d))
}

fn has_name(devices: &Vec<DeviceInfo>, name: &str) -> (r: bool)
    ensures
        r == is_present(devices@, name@),
{
    let mut i: usize = 0;
    while i < devices.len()
        invariant
            i <= devices@.len(),
            forall|k: int| 0 <= k < i ==> (#[trigger] devices@[k]).name@ != name@,
        decreases devices@.len() - i,
    {
        if same_text(devices[i].name.as_str(), name) {
            return true;
        }
        i = i + 1;
    }
    false
}

/// The devices of `devices` whose names are not among those of `others`.
fn newcomers(devices: &Vec<DeviceInfo>, others: &Vec<DeviceInfo>) -> (r: Vec<DeviceInfo>)
    ensures
        r@ == missing_from(devices@, others@),
{
    proof {
        reveal(Seq::filter);
    }
    let mut r: Vec<DeviceInfo> = Vec::new();
    let mut i: usize = 0;
    while i < devices.len()
        invariant
            i <= devices@.len(),
            r@ == missing_from(devices@.take(i as int), others@),
        decreases devices@.len() - i,
    {
        proof {
            reveal(Seq::filter);
            assert(devices@.take(i + 1).drop_last() =~= devices@.take(i as int));
        }
        if !has_name(others, devices[i].name.as_str()) {
            r.push(devices[i].clone());
        }
        i = i + 1;
    }
    assert(devices@.take(devices@.len() as int) =~= devices@);
    r
}

fn copied(devices: &Vec<DeviceInfo>) -> (r: Vec<DeviceInfo>)
    ensures
        r@ == devices@,
{
    let mut r: Vec<DeviceInfo> = Vec::new();
    let mut i: usize = 0;
    while i < devices.len()
        invariant
            i <= devices@.len(),
            r@ =~= devices@.take(i as int),
        decreases devices@.len() - i,
    {
        r.push(devices[i].clone());
        i = i + 1;
    }
    r
}

impl DeviceWatcher {
    pub fn new(devices: &Vec<DeviceInfo>, default_name: String) -> (r: Self)
        ensures
            r.last_devices@ == devices@,
            r.last_default_name == default_name,
    {
        DeviceWatcher { last_devices: copied(devices), last_default_name: default_name }
    }

    /// Compares the devices that are there now with those seen last.
    pub fn poll(&mut self, devices: &Vec<DeviceInfo>, current_default: String) -> (r: WatchOutcome)
        ensures
            final(self).last_devices@ == devices@,
            final(self).last_default_name@ == current_default@,
            r.revise_stream == (current_default@ != old(self).last_default_name@),
            r.events@ == change_events(old(self).last_devices@, devices@) + (if r.revise_stream {
                seq![
                    AudioEvent::DefaultDeviceChanged(DeviceInfo { name: current_default, is_default: true }),
                ]
            } else {
                Seq::empty()
            }),
    {
        let mut events: Vec<AudioEvent> = Vec::new();
        let added = newcomers(devices, &self.last_devices);
        let ghost coming = added@.map_values(|d: DeviceInfo| AudioEvent::DeviceAdded(d));
        let mut i: usize = 0;
        while i < added.len()
            invariant
                i <= added@.len(),
                coming == added@.map_values(|d: DeviceInfo| AudioEvent::DeviceAdded(d)),
                events@ =~= coming.take(i as int),
            decreases added@.len() - i,
        {
            events.push(AudioEvent::DeviceAdded(added[i].clone()));
            i = i + 1;
        }
        assert(events@ =~= coming);
        let removed = newcomers(&self.last_devices, devices);
        let ghost going = removed@.map_values(|d: DeviceInfo| AudioEvent::DeviceRemoved(d));
        let mut i: usize = 0;
        while i < removed.len()
            invariant
                i <= removed@.len(),
                going == removed@.map_values(|d: DeviceInfo| AudioEvent::DeviceRemoved(d)),
                events@ =~= coming + going.take(i as int),
            decreases removed@.len() - i,
        {
            events.push(AudioEvent::DeviceRemoved(removed[i].clone()));
            i = i + 1;
        }
        assert(events@ =~= coming + going);
        self.last_devices = copied(devices);
        let changed: bool = !same_text(current_default.as_str(), self.last_default_name.as_str());
        if changed {
            events.push(
                AudioEvent::DefaultDeviceChanged(DeviceInfo { name: current_default.clone(), is_default: true }),
            );
            self.last_default_name = current_default;
        }
        WatchOutcome { events, revise_stream: changed }
    }
}

} // verus!
